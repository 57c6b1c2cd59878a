//! The NID database: which function name a library (or module) gives to
//! each NID.
use vstd::prelude::*;
use crate::text::{str_eq, hex8_text, hex_fixed, hex_digit};

verus! {

/// Whether `c` has the Unicode `White_Space` property (what `str::trim`
/// removes).
pub open spec fn is_white_space(c: char) -> bool {
    let u = c as u32;
    (9 <= u <= 13) || u == 32 || u == 0x85 || u == 0xA0 || u == 0x1680 || (0x2000 <= u <= 0x200A)
        || u == 0x2028 || u == 0x2029 || u == 0x202F || u == 0x205F || u == 0x3000
}

/// The index of the first character at or after `i` that is not white space.
pub open spec fn first_non_ws(s: Seq<char>, i: int) -> int
    decreases s.len() - i,
{
    if i >= s.len() || !is_white_space(s[i]) {
        i
    } else {
        first_non_ws(s, i + 1)
    }
}

/// One past the last character before `j` that is not white space, not
/// below `lo`.
pub open spec fn last_non_ws(s: Seq<char>, lo: int, j: int) -> int
    decreases j - lo,
{
    if j <= lo || !is_white_space(s[j - 1]) {
        j
    } else {
        last_non_ws(s, lo, j - 1)
    }
}

/// `s` without leading and trailing white space (`str::trim`).
pub open spec fn trim_white_space(s: Seq<char>) -> Seq<char> {
    let lo = first_non_ws(s, 0);
    s.subrange(lo, last_non_ws(s, lo, s.len() as int))
}

/// `s` with every leading repetition of the two-character prefix `p`
/// removed (`str::trim_start_matches`).
pub open spec fn strip_repeated(s: Seq<char>, p: Seq<char>) -> Seq<char>
    decreases s.len(),
{
    if p.len() == 2 && s.len() >= 2 && s[0] == p[0] && s[1] == p[1] {
        strip_repeated(s.skip(2), p)
    } else {
        s
    }
}

/// The value of a hexadecimal digit, if `c` is one.
pub open spec fn hex_digit_value(c: char) -> Option<nat> {
    let u = c as u32;
    if 48 <= u <= 57 {
        Some((u - 48) as nat)
    } else if 97 <= u <= 102 {
        Some((u - 87) as nat)
    } else if 65 <= u <= 70 {
        Some((u - 55) as nat)
    } else {
        None
    }
}

/// The value of a string of hexadecimal digits (any length), if all of its
/// characters are digits.
pub open spec fn hex_value(s: Seq<char>) -> Option<nat>
    decreases s.len(),
{
    if s.len() == 0 {
        Some(0)
    } else {
        match (hex_value(s.drop_last()), hex_digit_value(s.last())) {
            (Some(h), Some(d)) => Some(h * 16 + d),
            _ => None,
        }
    }
}

/// `u32::from_str_radix(s, 16)`: an optional `+`, then at least one
/// hexadecimal digit, with a value that fits in 32 bits.
pub open spec fn parse_hex_u32(s: Seq<char>) -> Option<u32> {
    let digits = if s.len() > 0 && s[0] == '+' {
        s.drop_first()
    } else {
        s
    };
    if digits.len() == 0 {
        None
    } else {
        match hex_value(digits) {
            Some(v) => if v <= u32::MAX {
                Some(v as u32)
            } else {
                None
            },
            None => None,
        }
    }
}

/// The NID that a database string denotes: trimmed, stripped of `0x` and
/// then `0X` prefixes, read as hexadecimal; 0 where that fails.
pub open spec fn spec_parse_nid(s: Seq<char>) -> u32 {
    match parse_hex_u32(strip_repeated(strip_repeated(trim_white_space(s), seq!['0', 'x']), seq!['0', 'X'])) {
        Some(v) => v,
        None => 0,
    }
}

fn is_ws_char(c: char) -> (r: bool)
    ensures
        r == is_white_space(c),
{
    let u = c as u32;
    (9 <= u && u <= 13) || u == 32 || u == 0x85 || u == 0xA0 || u == 0x1680 || (0x2000 <= u && u
        <= 0x200A) || u == 0x2028 || u == 0x2029 || u == 0x202F || u == 0x205F || u == 0x3000
}

fn hex_char_value(c: char) -> (r: Option<u32>)
    ensures
        match hex_digit_value(c) {
            Some(d) => r == Some(d as u32),
            None => r is None,
        },
{
    let u = c as u32;
    if 48 <= u && u <= 57 {
        Some(u - 48)
    } else if 97 <= u && u <= 102 {
        Some(u - 87)
    } else if 65 <= u && u <= 70 {
        Some(u - 55)
    } else {
        None
    }
}

proof fn lemma_hex_value_prefix_bound(s: Seq<char>, n: int)
    requires
        0 <= n <= s.len(),
        hex_value(s) is Some,
    ensures
        hex_value(s.take(n)) is Some,
        hex_value(s.take(n)).unwrap() <= hex_value(s).unwrap(),
    decreases s.len() - n,
{
    if n < s.len() {
        assert(s.drop_last().take(n) =~= s.take(n));
        lemma_hex_value_prefix_bound(s.drop_last(), n);
    } else {
        assert(s.take(n) =~= s);
    }
}

/// Parses the hexadecimal digits `chars[lo..hi]`.
fn parse_hex_range(chars: &Vec<char>, lo: usize, hi: usize) -> (r: Option<u32>)
    requires
        lo <= hi <= chars@.len(),
    ensures
        r == (match hex_value(chars@.subrange(lo as int, hi as int)) {
            Some(v) => if v <= u32::MAX {
                Some(v as u32)
            } else {
                None::<u32>
            },
            None => None,
        }),
{
    let ghost s = chars@.subrange(lo as int, hi as int);
    let mut acc: u32 = 0;
    let mut i = lo;
    while i < hi
        invariant
            lo <= i <= hi <= chars@.len(),
            s == chars@.subrange(lo as int, hi as int),
            hex_value(s.take(i - lo)) == Some(acc as nat),
        decreases hi - i,
    {
        assert(s.take(i - lo + 1).drop_last() =~= s.take(i - lo));
        assert(s.take(i - lo + 1).last() == chars@[i as int]);
        match hex_char_value(chars[i]) {
            None => {
                proof {
                    if hex_value(s) is Some {
                        lemma_hex_value_prefix_bound(s, i - lo + 1);
                    }
                }
                return None;
            },
            Some(d) => {
                if acc > (u32::MAX - d) / 16 {
                    proof {
                        if hex_value(s) is Some {
                            lemma_hex_value_prefix_bound(s, i - lo + 1);
                        }
                    }
                    return None;
                }
                acc = acc * 16 + d;
            },
        }
        i = i + 1;
    }
    assert(s.take(hi - lo) =~= s);
    Some(acc)
}

/// The NID that a database string denotes: the string is trimmed, stripped
/// of leading `0x` and then `0X` prefixes and read as hexadecimal; a string
/// that does not parse gives 0.
pub fn parse_nid(s: &str) -> (r: u32)
    ensures
        r == spec_parse_nid(s@),
{
    let n = s.unicode_len();
    let mut chars: Vec<char> = Vec::new();
    let mut k: usize = 0;
    while k < n
        invariant
            n == s@.len(),
            k <= n,
            chars@ == s@.take(k as int),
        decreases n - k,
    {
        chars.push(s.get_char(k));
        k = k + 1;
        assert(chars@ =~= s@.take(k as int));
    }
    assert(chars@ =~= s@);
    let ghost cs = chars@;
    // trim
    let mut lo: usize = 0;
    while lo < n && is_ws_char(chars[lo])
        invariant
            lo <= n == cs.len(),
            chars@ == cs,
            first_non_ws(cs, 0) == first_non_ws(cs, lo as int),
        decreases n - lo,
    {
        lo = lo + 1;
    }
    let mut hi: usize = n;
    while hi > lo && is_ws_char(chars[hi - 1])
        invariant
            lo <= hi <= n == cs.len(),
            chars@ == cs,
            last_non_ws(cs, lo as int, n as int) == last_non_ws(cs, lo as int, hi as int),
        decreases hi,
    {
        hi = hi - 1;
    }
    assert(cs.subrange(lo as int, hi as int) =~= trim_white_space(cs));
    // strip "0x" prefixes, then "0X" prefixes
    while hi - lo >= 2 && chars[lo] == '0' && chars[lo + 1] == 'x'
        invariant
            lo <= hi <= n == cs.len(),
            chars@ == cs,
            strip_repeated(trim_white_space(cs), seq!['0', 'x']) == strip_repeated(
                cs.subrange(lo as int, hi as int),
                seq!['0', 'x'],
            ),
        decreases hi - lo,
    {
        assert(cs.subrange(lo as int, hi as int).skip(2) =~= cs.subrange(lo + 2, hi as int));
        lo = lo + 2;
    }
    let ghost after_x = cs.subrange(lo as int, hi as int);
    assert(strip_repeated(after_x, seq!['0', 'x']) == after_x);
    while hi - lo >= 2 && chars[lo] == '0' && chars[lo + 1] == 'X'
        invariant
            lo <= hi <= n == cs.len(),
            chars@ == cs,
            strip_repeated(after_x, seq!['0', 'X']) == strip_repeated(
                cs.subrange(lo as int, hi as int),
                seq!['0', 'X'],
            ),
        decreases hi - lo,
    {
        assert(cs.subrange(lo as int, hi as int).skip(2) =~= cs.subrange(lo + 2, hi as int));
        lo = lo + 2;
    }
    let ghost stripped = cs.subrange(lo as int, hi as int);
    assert(strip_repeated(stripped, seq!['0', 'X']) == stripped);
    // optional sign
    let mut start = lo;
    if hi > lo && chars[lo] == '+' {
        start = lo + 1;
        assert(stripped.drop_first() =~= cs.subrange(start as int, hi as int));
    }
    if start == hi {
        return 0;
    }
    match parse_hex_range(&chars, start, hi) {
        Some(v) => v,
        None => 0,
    }
}

/// One function of the database, as its YAML file lists it: the module and
/// the library that hold it, its name and its NID string.
pub struct DbFunctionEntry {
    pub module_name: String,
    pub lib_name: String,
    pub func_name: String,
    pub nid: String,
}

/// The texts of a database entry.
pub open spec fn entry_view(e: DbFunctionEntry) -> (Seq<char>, Seq<char>, Seq<char>, Seq<char>) {
    (e.module_name@, e.lib_name@, e.func_name@, e.nid@)
}

/// The mapping that a list of database entries builds, each entry in turn
/// adding its name under (library, NID) and then under (module, NID).
pub open spec fn db_map(entries: Seq<(Seq<char>, Seq<char>, Seq<char>, Seq<char>)>) -> Map<
    (Seq<char>, u32),
    Seq<char>,
>
    decreases entries.len(),
{
    if entries.len() == 0 {
        Map::empty()
    } else {
        let e = entries.last();
        let nid = spec_parse_nid(e.3);
        db_map(entries.drop_last()).insert((e.1, nid), e.2).insert((e.0, nid), e.2)
    }
}

/// The mapping from (library or module name, NID) to function name.
pub struct YamlDb {
    functions: Vec<(String, u32, String)>,
}

/// The mapping that a sequence of stored pairs denotes: later pairs win.
pub open spec fn pairs_map(s: Seq<(Seq<char>, u32, Seq<char>)>) -> Map<(Seq<char>, u32), Seq<char>>
    decreases s.len(),
{
    if s.len() == 0 {
        Map::empty()
    } else {
        pairs_map(s.drop_last()).insert((s.last().0, s.last().1), s.last().2)
    }
}

impl View for YamlDb {
    type V = Map<(Seq<char>, u32), Seq<char>>;

    closed spec fn view(&self) -> Map<(Seq<char>, u32), Seq<char>> {
        pairs_map(self.functions@.map_values(|p: (String, u32, String)| (p.0@, p.1, p.2@)))
    }
}

proof fn lemma_pairs_map_search(s: Seq<(Seq<char>, u32, Seq<char>)>, k: (Seq<char>, u32), i: int)
    requires
        -1 <= i < s.len(),
        forall|j: int| i < j < s.len() ==> (#[trigger] s[j].0, s[j].1) != k,
    ensures
        i >= 0 && (s[i].0, s[i].1) == k ==> pairs_map(s).contains_key(k) && pairs_map(s)[k]
            == s[i].2,
        i == -1 ==> !pairs_map(s).contains_key(k),
    decreases s.len(),
{
    if s.len() > 0 && i < s.len() - 1 {
        assert forall|j: int| i < j < s.drop_last().len() implies (#[trigger] s.drop_last()[j].0,
            s.drop_last()[j].1) != k by {
            assert(s.drop_last()[j] == s[j]);
        }
        lemma_pairs_map_search(s.drop_last(), k, i);
        if i >= 0 {
            assert(s.drop_last()[i] == s[i]);
        }
        assert((s[s.len() - 1].0, s[s.len() - 1].1) != k);
    }
}

impl YamlDb {
    /// An empty database.
    pub fn new() -> (r: YamlDb)
        ensures
            r@ == Map::<(Seq<char>, u32), Seq<char>>::empty(),
    {
        let r = YamlDb { functions: Vec::new() };
        assert(r.functions@.map_values(|p: (String, u32, String)| (p.0@, p.1, p.2@)) =~= seq![]);
        r
    }

    /// Maps (`key_name`, `nid`) to `func_name`, replacing what it mapped to.
    pub fn insert(&mut self, key_name: String, nid: u32, func_name: String)
        ensures
            final(self)@ == old(self)@.insert((key_name@, nid), func_name@),
    {
        let ghost k = key_name@;
        let ghost f = func_name@;
        self.functions.push((key_name, nid, func_name));
        assert(self.functions@.map_values(|p: (String, u32, String)| (p.0@, p.1, p.2@)).drop_last()
            =~= old(self).functions@.map_values(|p: (String, u32, String)| (p.0@, p.1, p.2@)));
    }

    /// The function name that library (or module) `lib_name` gives to `nid`.
    pub fn lookup(&self, lib_name: &str, nid: u32) -> (r: Option<&str>)
        ensures
            match r {
                Some(name) => self@.contains_key((lib_name@, nid)) && name@ == self@[(
                    lib_name@,
                    nid,
                )],
                None => !self@.contains_key((lib_name@, nid)),
            },
    {
        let ghost s = self.functions@.map_values(|p: (String, u32, String)| (p.0@, p.1, p.2@));
        let ghost k = (lib_name@, nid);
        let mut i = self.functions.len();
        while i > 0
            invariant
                i <= self.functions@.len(),
                k == (lib_name@, nid),
                s == self.functions@.map_values(|p: (String, u32, String)| (p.0@, p.1, p.2@)),
                forall|j: int| i <= j < s.len() ==> (#[trigger] s[j].0, s[j].1) != k,
            decreases i,
        {
            let e = &self.functions[i - 1];
            assert(s[i - 1] == (e.0@, e.1, e.2@));
            let same_nid = e.1 == nid;
            let same_name = str_eq(e.0.as_str(), lib_name);
            assert(same_name == (e.0@ == lib_name@));
            if same_nid && same_name {
                assert((s[i - 1].0, s[i - 1].1) == k);
                proof {
                    lemma_pairs_map_search(s, k, i - 1);
                }
                return Some(e.2.as_str());
            }
            assert((s[i - 1].0, s[i - 1].1) != k);
            i = i - 1;
        }
        proof {
            lemma_pairs_map_search(s, k, -1);
        }
        None
    }

    /// The database that a list of entries describes: each entry in turn
    /// maps (library, NID) and then (module, NID) to its function name.
    pub fn from_entries(entries: &Vec<DbFunctionEntry>) -> (r: YamlDb)
        ensures
            r@ == db_map(entries@.map_values(|e: DbFunctionEntry| entry_view(e))),
    {
        let ghost es = entries@.map_values(|e: DbFunctionEntry| entry_view(e));
        let mut db = YamlDb::new();
        let mut i: usize = 0;
        while i < entries.len()
            invariant
                i <= entries@.len(),
                es == entries@.map_values(|e: DbFunctionEntry| entry_view(e)),
                db@ == db_map(es.take(i as int)),
            decreases entries@.len() - i,
        {
            let e = &entries[i];
            let nid = parse_nid(e.nid.as_str());
            db.insert(e.lib_name.clone(), nid, e.func_name.clone());
            db.insert(e.module_name.clone(), nid, e.func_name.clone());
            assert(es.take(i + 1).drop_last() =~= es.take(i as int));
            i = i + 1;
        }
        assert(es.take(i as int) =~= es);
        db
    }
}

/// The database knows exactly the (library, NID) and (module, NID) pairs
/// of its entries.
pub proof fn lemma_db_keys(es: Seq<(Seq<char>, Seq<char>, Seq<char>, Seq<char>)>, k: (Seq<char>, u32))
    ensures
        db_map(es).contains_key(k) <==> exists|i: int|
            0 <= i < es.len() && (k == (#[trigger] es[i].1, spec_parse_nid(es[i].3)) || k == (es[i].0, spec_parse_nid(es[i].3))),
    decreases es.len(),
{
    if es.len() > 0 {
        let init = es.drop_last();
        lemma_db_keys(init, k);
        let e = es.last();
        if db_map(es).contains_key(k) {
            if init.len() >= 0 && db_map(init).contains_key(k) {
                let i = choose|i: int|
                    0 <= i < init.len() && (k == (#[trigger] init[i].1, spec_parse_nid(init[i].3)) || k == (init[i].0, spec_parse_nid(init[i].3)));
                assert(es[i] == init[i]);
            } else {
                assert(es[es.len() - 1] == e);
            }
        } else {
            assert forall|i: int| 0 <= i < es.len() implies !(k == (#[trigger] es[i].1, spec_parse_nid(es[i].3)) || k == (es[i].0, spec_parse_nid(es[i].3))) by {
                if i < es.len() - 1 {
                    assert(es[i] == init[i]);
                }
            }
        }
    }
}

/// Sixteen to the power `n`.
pub open spec fn pow16(n: nat) -> nat
    decreases n,
{
    if n == 0 {
        1
    } else {
        16 * pow16((n - 1) as nat)
    }
}

proof fn lemma_hex_fixed_value(v: nat, n: nat)
    requires
        v < pow16(n),
    ensures
        hex_value(hex_fixed(v, n).map_values(|b: u8| b as char)) == Some(v),
        forall|j: int| 0 <= j < hex_fixed(v, n).len() ==> hex_digit_value(#[trigger] hex_fixed(v, n)[j] as char) is Some,
        hex_fixed(v, n).len() == n,
    decreases n,
{
    let t = hex_fixed(v, n).map_values(|b: u8| b as char);
    if n == 0 {
        assert(t =~= Seq::<char>::empty());
    } else {
        let p = pow16((n - 1) as nat);
        assert(v / 16 < p);
        lemma_hex_fixed_value(v / 16, (n - 1) as nat);
        let t0 = hex_fixed(v / 16, (n - 1) as nat).map_values(|b: u8| b as char);
        assert(t.drop_last() =~= t0);
        let d = v % 16;
        assert(t.last() == hex_digit(d) as char);
        assert(hex_digit_value(hex_digit(d) as char) == Some(d));
        assert(v == (v / 16) * 16 + d);
    }
}

/// A NID written as the NID listing and the YAML output write it (`0x` and
/// eight upper-case hexadecimal digits) reads back as itself.
pub proof fn lemma_parse_nid_written(v: u32)
    ensures
        spec_parse_nid(seq!['0', 'x'] + hex8_text(v)) == v,
{
    let h = hex8_text(v);
    let s = seq!['0', 'x'] + h;
    assert(pow16(8) == 0x1_0000_0000) by {
        reveal_with_fuel(pow16, 9);
    }
    lemma_hex_fixed_value(v as nat, 8);
    assert(h.len() == 8);
    assert(forall|j: int| 0 <= j < 8 ==> hex_digit_value(#[trigger] h[j]) is Some);
    assert(!is_white_space(s[0]));
    assert(hex_digit_value(s[9]) is Some);
    assert(!is_white_space(s[9]));
    assert(first_non_ws(s, 0) == 0);
    assert(last_non_ws(s, 0, 10) == 10);
    assert(trim_white_space(s) =~= s);
    assert(s.skip(2) =~= h);
    assert(hex_digit_value(h[1]) is Some);
    assert(strip_repeated(h, seq!['0', 'x']) == h);
    assert(strip_repeated(s, seq!['0', 'x']) == h);
    assert(strip_repeated(h, seq!['0', 'X']) == h);
    assert(hex_digit_value(h[0]) is Some);
    assert(h[0] != '+');
}

/// A lookup after an insert gives the inserted name for the inserted
/// (library, NID) pair, and what the database held for every other pair.
pub proof fn lemma_lookup_after_insert(
    db: Map<(Seq<char>, u32), Seq<char>>,
    lib: Seq<char>,
    nid: u32,
    name: Seq<char>,
    other: (Seq<char>, u32),
)
    ensures
        db.insert((lib, nid), name).contains_key((lib, nid)),
        db.insert((lib, nid), name)[(lib, nid)] == name,
        other != (lib, nid) ==> (db.insert((lib, nid), name).contains_key(other) == db.contains_key(other)
            && db.insert((lib, nid), name)[other] == db[other]),
{
}

/// Whether an entry gives the key `k`: its (library, NID) or its (module,
/// NID) pair.
pub open spec fn entry_gives(e: (Seq<char>, Seq<char>, Seq<char>, Seq<char>), k: (Seq<char>, u32)) -> bool {
    k == (e.1, spec_parse_nid(e.3)) || k == (e.0, spec_parse_nid(e.3))
}

/// An entry that alone gives a key is found again under that key: the
/// database maps the key to the entry's function name.
pub proof fn lemma_db_unique_entry(es: Seq<(Seq<char>, Seq<char>, Seq<char>, Seq<char>)>, k: (Seq<char>, u32), i: int)
    requires
        0 <= i < es.len(),
        entry_gives(es[i], k),
        forall|j: int| 0 <= j < es.len() && j != i ==> !entry_gives(#[trigger] es[j], k),
    ensures
        db_map(es).contains_key(k),
        db_map(es)[k] == es[i].2,
    decreases es.len(),
{
    let init = es.drop_last();
    if i < es.len() - 1 {
        assert forall|j: int| 0 <= j < init.len() && j != i implies !entry_gives(#[trigger] init[j], k) by {
            assert(init[j] == es[j]);
        }
        assert(init[i] == es[i]);
        lemma_db_unique_entry(init, k, i);
        assert(!entry_gives(es[es.len() - 1], k));
    }
}

/// What `lookup` finds in the database that `from_entries` builds from a
/// list of YAML function entries: under a key that one entry alone gives
/// (its library or its module, with its parsed NID), that entry's function
/// name; under a key that no entry gives, nothing.
pub proof fn lemma_entries_lookup(entries: Seq<DbFunctionEntry>, k: (Seq<char>, u32))
    ensures
        ({
            let es = entries.map_values(|e: DbFunctionEntry| entry_view(e));
            &&& forall|i: int|
                0 <= i < es.len() && entry_gives(es[i], k) && (forall|j: int|
                    0 <= j < es.len() && j != i ==> !entry_gives(#[trigger] es[j], k)) ==> db_map(es).contains_key(k)
                    && db_map(es)[k] == #[trigger] es[i].2
            &&& (forall|j: int| 0 <= j < es.len() ==> !entry_gives(#[trigger] es[j], k)) ==> !db_map(es).contains_key(k)
        }),
{
    let es = entries.map_values(|e: DbFunctionEntry| entry_view(e));
    assert forall|i: int|
        0 <= i < es.len() && entry_gives(es[i], k) && (forall|j: int|
            0 <= j < es.len() && j != i ==> !entry_gives(#[trigger] es[j], k)) implies db_map(es).contains_key(k)
            && db_map(es)[k] == #[trigger] es[i].2 by {
        lemma_db_unique_entry(es, k, i);
    }
    lemma_db_keys(es, k);
    if forall|j: int| 0 <= j < es.len() ==> !entry_gives(#[trigger] es[j], k) {
        if db_map(es).contains_key(k) {
            let i = choose|i: int|
                0 <= i < es.len() && (k == (#[trigger] es[i].1, spec_parse_nid(es[i].3)) || k == (es[i].0, spec_parse_nid(es[i].3)));
            assert(entry_gives(es[i], k));
        }
    }
}

} // verus!
