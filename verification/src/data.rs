//! Level-listing data: the outcome of a network save, the listing
//! orderings and their comparison rule, renaming a saved level without
//! colliding with another, and the parser for the level-list wire text
//! (`name_downloads-date-timestamp`, comma separated).  The surrounding
//! I/O (requests, polling, storage) stays outside; it hands these
//! functions the received bytes and takes plain values back.

use vstd::prelude::*;

verus! {

/// How a network save or fetch ended.
#[derive(Clone, PartialEq, Eq, Debug)]
pub enum NetworkResult {
    Success,
    Fail(String),
}

/// The listing orderings the menu offers.
#[derive(Clone, Copy, PartialEq, Eq, Structural, Debug)]
pub enum LevelSorting {
    Name,
    Time,
    Downloads,
}

/// One listed online level: its name and date as raw bytes, the
/// download count and the upload timestamp.
#[derive(Clone, PartialEq, Eq, Debug)]
pub struct OnlineLevel {
    pub name: Vec<u8>,
    pub downloads: u32,
    pub date: Vec<u8>,
    pub timestamp: u64,
}

/// A level-list message that does not match the wire format.
#[derive(Clone, Copy, PartialEq, Eq, Structural, Debug)]
pub enum ListParseError {
    MalformedEntry,
}

/// The separators of the wire format.
pub const SEP_ENTRY: u8 = 44;

pub const SEP_NAME: u8 = 95;

pub const SEP_FIELD: u8 = 45;

pub open spec fn is_digit(b: u8) -> bool {
    48 <= b <= 57
}

pub open spec fn all_digits(s: Seq<u8>) -> bool {
    &&& s.len() > 0
    &&& forall|i: int| 0 <= i < s.len() ==> is_digit(#[trigger] s[i])
}

/// The number a digit string denotes.
pub open spec fn digits_val(s: Seq<u8>) -> int
    decreases s.len(),
{
    if s.len() == 0 {
        0
    } else {
        digits_val(s.drop_last()) * 10 + (s.last() - 48)
    }
}

/// The first position of `b` in `s`, or -1.
pub open spec fn find_byte_spec(s: Seq<u8>, b: u8) -> int
    decreases s.len(),
{
    if s.len() == 0 {
        -1
    } else if s[0] == b {
        0
    } else {
        let r = find_byte_spec(s.subrange(1, s.len() as int), b);
        if r < 0 {
            -1
        } else {
            r + 1
        }
    }
}

proof fn lemma_find_byte_at(s: Seq<u8>, b: u8, k: int)
    requires
        0 <= k < s.len(),
        s[k] == b,
        forall|j: int| 0 <= j < k ==> s[j] != b,
    ensures
        find_byte_spec(s, b) == k,
    decreases s.len(),
{
    if k > 0 {
        lemma_find_byte_at(s.subrange(1, s.len() as int), b, k - 1);
    }
}

proof fn lemma_find_byte_none(s: Seq<u8>, b: u8)
    requires
        forall|j: int| 0 <= j < s.len() ==> s[j] != b,
    ensures
        find_byte_spec(s, b) == -1,
    decreases s.len(),
{
    if s.len() > 0 {
        lemma_find_byte_none(s.subrange(1, s.len() as int), b);
    }
}

/// The first `b` in `v[from..to]`, if any.
fn find_byte(v: &Vec<u8>, from: usize, to: usize, b: u8) -> (r: Option<usize>)
    requires
        from <= to <= v@.len(),
    ensures
        match r {
            Option::Some(i) => from <= i < to && find_byte_spec(v@.subrange(from as int, to as int), b)
                == i - from,
            Option::None => find_byte_spec(v@.subrange(from as int, to as int), b) < 0,
        },
{
    let ghost s = v@.subrange(from as int, to as int);
    let mut i = from;
    while i < to
        invariant
            from <= i <= to <= v@.len(),
            s == v@.subrange(from as int, to as int),
            forall|j: int| 0 <= j < i - from ==> s[j] != b,
        decreases to - i,
    {
        if v[i] == b {
            proof {
                lemma_find_byte_at(s, b, i - from as int);
            }
            return Some(i);
        }
        i = i + 1;
    }
    proof {
        lemma_find_byte_none(s, b);
    }
    None
}

/// Digit strings denote nonnegative values that never shrink as digits
/// are appended.
proof fn lemma_digits_val_nonneg(s: Seq<u8>)
    requires
        forall|i: int| 0 <= i < s.len() ==> is_digit(#[trigger] s[i]),
    ensures
        digits_val(s) >= 0,
    decreases s.len(),
{
    if s.len() > 0 {
        lemma_digits_val_nonneg(s.drop_last());
    }
}

/// A digit string is worth at least its prefix.
proof fn lemma_digits_val_prefix(s: Seq<u8>, i: int)
    requires
        forall|j: int| 0 <= j < s.len() ==> is_digit(#[trigger] s[j]),
        0 <= i <= s.len(),
    ensures
        digits_val(s) >= digits_val(s.subrange(0, i)),
    decreases s.len() - i,
{
    if i < s.len() {
        lemma_digits_val_prefix(s, i + 1);
        let p = s.subrange(0, i + 1);
        assert(p.drop_last() =~= s.subrange(0, i));
        assert(p.last() == s[i]);
        lemma_digits_val_nonneg(s.subrange(0, i));
    } else {
        assert(s.subrange(0, i) =~= s);
    }
}

/// Reads the decimal number in `v[from..to]`: the digits' value, if the
/// range is a nonempty all-digit run whose value fits.
fn parse_u64_digits(v: &Vec<u8>, from: usize, to: usize) -> (r: Option<u64>)
    requires
        from <= to <= v@.len(),
    ensures
        ({
            let s = v@.subrange(from as int, to as int);
            match r {
                Option::Some(x) => all_digits(s) && x == digits_val(s) && digits_val(s)
                    <= u64::MAX,
                Option::None => !(all_digits(s) && digits_val(s) <= u64::MAX),
            }
        }),
{
    let ghost s = v@.subrange(from as int, to as int);
    if from == to {
        return None;
    }
    let mut val: u64 = 0;
    let mut i = from;
    while i < to
        invariant
            from <= i <= to <= v@.len(),
            s == v@.subrange(from as int, to as int),
            forall|j: int| 0 <= j < i - from ==> is_digit(#[trigger] s[j]),
            val == digits_val(s.subrange(0, i - from as int)),
        decreases to - i,
    {
        let c = v[i];
        if c < 48 || c > 57 {
            proof {
                assert(s[i - from as int] == c);
                assert(!is_digit(s[i - from as int]));
            }
            return None;
        }
        let d = (c - 48) as u64;
        let ghost p = s.subrange(0, i + 1 - from as int);
        proof {
            assert(p.drop_last() =~= s.subrange(0, i - from as int));
            assert(p.last() == s[i - from as int]);
            lemma_digits_val_nonneg(s.subrange(0, i - from as int));
        }
        let limit = (u64::MAX - d) / 10;
        proof {
            vstd::arithmetic::div_mod::lemma_fundamental_div_mod((u64::MAX - d) as int, 10);
        }
        if val > limit {
            proof {
                assert(digits_val(p) == val * 10 + d);
                assert(digits_val(p) > u64::MAX);
                if all_digits(s) {
                    lemma_digits_val_prefix(s, i + 1 - from as int);
                }
            }
            return None;
        }
        val = val * 10 + d;
        i = i + 1;
    }
    proof {
        assert(s.subrange(0, to - from as int) =~= s);
    }
    Some(val)
}

/// Copies `v[from..to]` out.
fn copy_range(v: &Vec<u8>, from: usize, to: usize) -> (r: Vec<u8>)
    requires
        from <= to <= v@.len(),
    ensures
        r@ == v@.subrange(from as int, to as int),
{
    let mut r: Vec<u8> = Vec::new();
    let mut i = from;
    while i < to
        invariant
            from <= i <= to <= v@.len(),
            r@ =~= v@.subrange(from as int, i as int),
        decreases to - i,
    {
        r.push(v[i]);
        proof {
            assert(r@ =~= v@.subrange(from as int, i + 1));
        }
        i = i + 1;
    }
    r
}

/// What one wire entry means: the name up to the first underscore, then
/// three dash-separated fields — the download count, the date, the
/// timestamp — with digit counts that fit their types and no stray dash.
pub open spec fn entry_parse_spec(s: Seq<u8>) -> Option<(Seq<u8>, int, Seq<u8>, int)> {
    let u = find_byte_spec(s, SEP_NAME);
    if u < 0 {
        Option::None
    } else {
        let rest = s.subrange(u + 1, s.len() as int);
        let d1 = find_byte_spec(rest, SEP_FIELD);
        if d1 < 0 {
            Option::None
        } else {
            let rest2 = rest.subrange(d1 + 1, rest.len() as int);
            let d2 = find_byte_spec(rest2, SEP_FIELD);
            if d2 < 0 {
                Option::None
            } else {
                let dl = rest.subrange(0, d1);
                let date = rest2.subrange(0, d2);
                let ts = rest2.subrange(d2 + 1, rest2.len() as int);
                if find_byte_spec(ts, SEP_FIELD) >= 0 {
                    Option::None
                } else if !(all_digits(dl) && digits_val(dl) <= u32::MAX) {
                    Option::None
                } else if !(all_digits(ts) && digits_val(ts) <= u64::MAX) {
                    Option::None
                } else {
                    Option::Some((s.subrange(0, u), digits_val(dl), date, digits_val(ts)))
                }
            }
        }
    }
}

/// The plain values a parsed level stands for.
pub open spec fn online_level_abs(l: OnlineLevel) -> (Seq<u8>, int, Seq<u8>, int) {
    (l.name@, l.downloads as int, l.date@, l.timestamp as int)
}

/// The plain values a parsed listing stands for, element by element.
pub open spec fn abs_list(list: Seq<OnlineLevel>) -> Seq<(Seq<u8>, int, Seq<u8>, int)> {
    Seq::new(list.len(), |i: int| online_level_abs(list[i]))
}

/// Parses one wire entry from `v[from..to]`.
fn parse_entry(v: &Vec<u8>, from: usize, to: usize) -> (r: Result<OnlineLevel, ListParseError>)
    requires
        from <= to <= v@.len(),
    ensures
        ({
            let s = v@.subrange(from as int, to as int);
            match r {
                Result::Ok(l) => entry_parse_spec(s) == Option::Some(online_level_abs(l)),
                Result::Err(e) => entry_parse_spec(s) is None && e
                    == ListParseError::MalformedEntry,
            }
        }),
{
    let ghost s = v@.subrange(from as int, to as int);
    let u = match find_byte(v, from, to, SEP_NAME) {
        Some(u) => u,
        None => {
            return Err(ListParseError::MalformedEntry);
        },
    };
    proof {
        assert(s.subrange(u - from as int + 1, s.len() as int) =~= v@.subrange(
            u as int + 1,
            to as int,
        ));
    }
    let d1 = match find_byte(v, u + 1, to, SEP_FIELD) {
        Some(d1) => d1,
        None => {
            return Err(ListParseError::MalformedEntry);
        },
    };
    let ghost rest = s.subrange(u - from as int + 1, s.len() as int);
    proof {
        assert(rest.subrange(d1 - u as int, rest.len() as int) =~= v@.subrange(
            d1 as int + 1,
            to as int,
        ));
    }
    let d2 = match find_byte(v, d1 + 1, to, SEP_FIELD) {
        Some(d2) => d2,
        None => {
            return Err(ListParseError::MalformedEntry);
        },
    };
    let ghost rest2 = rest.subrange(d1 - u as int, rest.len() as int);
    proof {
        assert(rest2.subrange(d2 - d1 as int, rest2.len() as int) =~= v@.subrange(
            d2 as int + 1,
            to as int,
        ));
        assert(rest.subrange(0, d1 - u as int - 1) =~= v@.subrange(u as int + 1, d1 as int));
        assert(rest2.subrange(0, d2 - d1 as int - 1) =~= v@.subrange(d1 as int + 1, d2 as int));
    }
    if let Some(_) = find_byte(v, d2 + 1, to, SEP_FIELD) {
        return Err(ListParseError::MalformedEntry);
    }
    let downloads64 = match parse_u64_digits(v, u + 1, d1) {
        Some(x) => x,
        None => {
            return Err(ListParseError::MalformedEntry);
        },
    };
    if downloads64 > 0xffff_ffff {
        proof {
            lemma_digits_val_nonneg(v@.subrange(u as int + 1, d1 as int));
        }
        return Err(ListParseError::MalformedEntry);
    }
    let downloads = downloads64 as u32;
    let timestamp = match parse_u64_digits(v, d2 + 1, to) {
        Some(x) => x,
        None => {
            return Err(ListParseError::MalformedEntry);
        },
    };
    let name = copy_range(v, from, u);
    let date = copy_range(v, d1 + 1, d2);
    proof {
        assert(s.subrange(0, u - from as int) =~= v@.subrange(from as int, u as int));
    }
    Ok(OnlineLevel { name, downloads, date, timestamp })
}

/// What the whole message means: entries separated by commas, every one
/// well-formed.
pub open spec fn list_parse_spec(s: Seq<u8>) -> Option<Seq<(Seq<u8>, int, Seq<u8>, int)>>
    decreases s.len(),
{
    let c = find_byte_spec(s, SEP_ENTRY);
    if !(0 <= c < s.len()) {
        match entry_parse_spec(s) {
            Option::Some(e) => Option::Some(seq![e]),
            Option::None => Option::None,
        }
    } else {
        match (entry_parse_spec(s.subrange(0, c)), list_parse_spec(
            s.subrange(c + 1, s.len() as int),
        )) {
            (Option::Some(e), Option::Some(rest)) => Option::Some(seq![e] + rest),
            _ => Option::None,
        }
    }
}

/// Parses the level-list message: the listed levels in order, or the
/// error when any entry is malformed.  An empty message is not a list;
/// the caller keeps its old list when it receives one.
pub fn parse_level_list(v: &Vec<u8>) -> (r: Result<Vec<OnlineLevel>, ListParseError>)
    ensures
        ({
            match r {
                Result::Ok(list) => list_parse_spec(v@) == Option::Some(abs_list(list@)),
                Result::Err(e) => list_parse_spec(v@) is None && e
                    == ListParseError::MalformedEntry,
            }
        }),
{
    let n = v.len();
    let mut out: Vec<OnlineLevel> = Vec::new();
    let mut start: usize = 0;
    proof {
        assert(v@.subrange(0, n as int) =~= v@);
        let tail0 = list_parse_spec(v@);
        if tail0 is Some {
            assert(abs_list(out@) + tail0.unwrap() =~= tail0.unwrap());
        }
    }
    loop
        invariant
            start <= n,
            n == v@.len(),
            ({
                let tail = list_parse_spec(v@.subrange(start as int, n as int));
                let full = list_parse_spec(v@);
                &&& (full is Some <==> tail is Some)
                &&& (full is Some ==> full == Option::Some(abs_list(out@) + tail.unwrap()))
            }),
        decreases n - start,
    {
        let ghost tail = v@.subrange(start as int, n as int);
        match find_byte(v, start, n, SEP_ENTRY) {
            Some(c) => {
                proof {
                    assert(tail.subrange(0, c - start as int) =~= v@.subrange(
                        start as int,
                        c as int,
                    ));
                    assert(tail.subrange(c - start as int + 1, tail.len() as int) =~= v@.subrange(
                        c as int + 1,
                        n as int,
                    ));
                }
                let entry = match parse_entry(v, start, c) {
                    Ok(entry) => entry,
                    Err(e) => {
                        return Err(e);
                    },
                };
                let ghost out_pre = out@;
                out.push(entry);
                proof {
                    let tail2 = list_parse_spec(v@.subrange(c as int + 1, n as int));
                    if tail2 is Some {
                        assert(abs_list(out@) =~= abs_list(out_pre).push(online_level_abs(entry)));
                        assert(abs_list(out_pre) + (seq![online_level_abs(entry)] + tail2.unwrap())
                            =~= abs_list(out@) + tail2.unwrap());
                    }
                }
                start = c + 1;
            },
            None => {
                let entry = match parse_entry(v, start, n) {
                    Ok(entry) => entry,
                    Err(e) => {
                        return Err(e);
                    },
                };
                let ghost out_pre = out@;
                out.push(entry);
                proof {
                    assert(abs_list(out@) =~= abs_list(out_pre).push(online_level_abs(entry)));
                    assert(abs_list(out_pre) + seq![online_level_abs(entry)] =~= abs_list(out@));
                }
                return Ok(out);
            },
        }
    }
}

/// Whether two byte strings are equal.
fn bytes_eq(a: &Vec<u8>, b: &Vec<u8>) -> (r: bool)
    ensures
        r == (a@ == b@),
{
    if a.len() != b.len() {
        return false;
    }
    let n = a.len();
    let mut i: usize = 0;
    while i < n
        invariant
            i <= n,
            n == a@.len() == b@.len(),
            forall|j: int| 0 <= j < i ==> a@[j] == b@[j],
        decreases n - i,
    {
        if a[i] != b[i] {
            return false;
        }
        i = i + 1;
    }
    proof {
        assert(a@ =~= b@);
    }
    true
}

/// Renames the saved level at `index` to `new_name`, unless another
/// saved level already bears that name: then nothing changes and the
/// caller is told so.
pub fn rename_level(names: &mut Vec<Vec<u8>>, index: usize, new_name: Vec<u8>) -> (renamed: bool)
    requires
        index < old(names)@.len(),
    ensures
        renamed == !(exists|i: int|
            0 <= i < old(names)@.len() && i != index && (#[trigger] old(names)@[i])@
                == new_name@),
        renamed ==> final(names)@ == old(names)@.update(index as int, new_name),
        !renamed ==> final(names)@ == old(names)@,
{
    let n = names.len();
    let mut i: usize = 0;
    while i < n
        invariant
            i <= n,
            n == names@.len(),
            names@ == old(names)@,
            index < n,
            forall|j: int| 0 <= j < i && j != index ==> (#[trigger] names@[j])@ != new_name@,
        decreases n - i,
    {
        if i != index {
            if bytes_eq(&names[i], &new_name) {
                return false;
            }
        }
        i = i + 1;
    }
    names.set(index, new_name);
    true
}

/// The lowercased form of an ASCII byte, as the name ordering compares.
pub open spec fn lower_byte(b: u8) -> u8 {
    if 65 <= b <= 90 {
        (b + 32) as u8
    } else {
        b
    }
}

/// Lexicographic order on lowercased names.
pub open spec fn name_le_spec(a: Seq<u8>, b: Seq<u8>) -> bool
    decreases a.len() + b.len(),
{
    if a.len() == 0 {
        true
    } else if b.len() == 0 {
        false
    } else if lower_byte(a[0]) < lower_byte(b[0]) {
        true
    } else if lower_byte(a[0]) > lower_byte(b[0]) {
        false
    } else {
        name_le_spec(a.subrange(1, a.len() as int), b.subrange(1, b.len() as int))
    }
}

/// The listing order: by descending downloads, by descending timestamp,
/// or by case-insensitive name.
pub open spec fn listing_le_spec(sorting: LevelSorting, a: OnlineLevel, b: OnlineLevel) -> bool {
    match sorting {
        LevelSorting::Downloads => a.downloads >= b.downloads,
        LevelSorting::Time => a.timestamp >= b.timestamp,
        LevelSorting::Name => name_le_spec(a.name@, b.name@),
    }
}

/// Whether `a` sorts at or before `b` under the chosen ordering.
#[verifier::rlimit(60)]
pub fn listing_le(sorting: LevelSorting, a: &OnlineLevel, b: &OnlineLevel) -> (r: bool)
    ensures
        r == listing_le_spec(sorting, *a, *b),
{
    match sorting {
        LevelSorting::Downloads => a.downloads >= b.downloads,
        LevelSorting::Time => a.timestamp >= b.timestamp,
        LevelSorting::Name => {
            let an = a.name.len();
            let bn = b.name.len();
            let mut i: usize = 0;
            proof {
                assert(a.name@.subrange(0, an as int) =~= a.name@);
                assert(b.name@.subrange(0, bn as int) =~= b.name@);
            }
            loop
                invariant
                    i <= an,
                    i <= bn,
                    an == a.name@.len(),
                    bn == b.name@.len(),
                    name_le_spec(a.name@, b.name@) == name_le_spec(
                        a.name@.subrange(i as int, an as int),
                        b.name@.subrange(i as int, bn as int),
                    ),
                decreases an - i,
            {
                let ghost sa = a.name@.subrange(i as int, an as int);
                let ghost sb = b.name@.subrange(i as int, bn as int);
                if i >= an {
                    proof {
                        assert(sa.len() == 0);
                    }
                    return true;
                }
                if i >= bn {
                    proof {
                        assert(sb.len() == 0 && sa.len() > 0);
                    }
                    return false;
                }
                let ca = lower_ascii(a.name[i]);
                let cb = lower_ascii(b.name[i]);
                proof {
                    assert(sa[0] == a.name@[i as int]);
                    assert(sb[0] == b.name@[i as int]);
                    assert(sa.subrange(1, sa.len() as int) =~= a.name@.subrange(
                        i as int + 1,
                        an as int,
                    ));
                    assert(sb.subrange(1, sb.len() as int) =~= b.name@.subrange(
                        i as int + 1,
                        bn as int,
                    ));
                }
                if ca < cb {
                    return true;
                }
                if ca > cb {
                    return false;
                }
                i = i + 1;
            }
        },
    }
}

/// The lowercased form of an ASCII byte.
fn lower_ascii(b: u8) -> (r: u8)
    ensures
        r == lower_byte(b),
{
    if 65 <= b && b <= 90 {
        b + 32
    } else {
        b
    }
}

/// A listing where every pair stands in the chosen order.
pub open spec fn sorted_by_spec(sorting: LevelSorting, s: Seq<OnlineLevel>) -> bool {
    forall|i: int, j: int|
        0 <= i < j < s.len() ==> listing_le_spec(sorting, #[trigger] s[i], #[trigger] s[j])
}

/// Any two names stand in the order one way or the other.
proof fn lemma_name_le_total(a: Seq<u8>, b: Seq<u8>)
    ensures
        name_le_spec(a, b) || name_le_spec(b, a),
    decreases a.len(),
{
    if a.len() > 0 && b.len() > 0 && lower_byte(a[0]) == lower_byte(b[0]) {
        lemma_name_le_total(a.subrange(1, a.len() as int), b.subrange(1, b.len() as int));
    }
}

/// The name order chains.
proof fn lemma_name_le_trans(a: Seq<u8>, b: Seq<u8>, c: Seq<u8>)
    requires
        name_le_spec(a, b),
        name_le_spec(b, c),
    ensures
        name_le_spec(a, c),
    decreases a.len(),
{
    if a.len() > 0 {
        if c.len() > 0 && lower_byte(a[0]) == lower_byte(b[0]) && lower_byte(b[0]) == lower_byte(
            c[0],
        ) {
            lemma_name_le_trans(
                a.subrange(1, a.len() as int),
                b.subrange(1, b.len() as int),
                c.subrange(1, c.len() as int),
            );
        }
    }
}

/// Any two listed levels stand in the chosen order one way or the other.
pub proof fn lemma_listing_le_total(sorting: LevelSorting, a: OnlineLevel, b: OnlineLevel)
    ensures
        listing_le_spec(sorting, a, b) || listing_le_spec(sorting, b, a),
{
    if sorting == LevelSorting::Name {
        lemma_name_le_total(a.name@, b.name@);
    }
}

/// The chosen order chains.
pub proof fn lemma_listing_le_trans(
    sorting: LevelSorting,
    a: OnlineLevel,
    b: OnlineLevel,
    c: OnlineLevel,
)
    requires
        listing_le_spec(sorting, a, b),
        listing_le_spec(sorting, b, c),
    ensures
        listing_le_spec(sorting, a, c),
{
    if sorting == LevelSorting::Name {
        lemma_name_le_trans(a.name@, b.name@, c.name@);
    }
}

/// Sorts the listing under the chosen order, keeping exactly the same
/// levels: each one in turn is lifted out and put back at the first
/// place that keeps the prefix ordered.
pub fn sort_levels(levels: &mut Vec<OnlineLevel>, sorting: LevelSorting)
    ensures
        sorted_by_spec(sorting, final(levels)@),
        final(levels)@.to_multiset() == old(levels)@.to_multiset(),
{
    let n = levels.len();
    let mut i: usize = 1;
    while i < n
        invariant
            n == levels@.len(),
            1 <= i,
            levels@.to_multiset() == old(levels)@.to_multiset(),
            forall|a: int, b: int|
                0 <= a < b < i ==> listing_le_spec(sorting, #[trigger] levels@[a], #[trigger] levels@[b]),
        decreases n - i,
    {
        let ghost pre = levels@;
        let x = levels.remove(i);
        let ghost t = levels@;
        proof {
            pre.to_multiset_ensures();
        }
        let mut k: usize = 0;
        while k < i && listing_le(sorting, &levels[k], &x)
            invariant
                k <= i,
                i < n == pre.len(),
                levels@ == t,
                t == pre.remove(i as int),
                x == pre[i as int],
                forall|a: int| 0 <= a < k ==> listing_le_spec(sorting, #[trigger] t[a], x),
            decreases i - k,
        {
            k = k + 1;
        }
        let ghost stopped_short = k < i;
        proof {
            if stopped_short {
                lemma_listing_le_total(sorting, t[k as int], x);
            }
        }
        levels.insert(k, x);
        proof {
            let u = levels@;
            u.to_multiset_ensures();
            t.to_multiset_ensures();
            assert(u.remove(k as int) =~= t);
            assert(u[k as int] == x);
            assert(t.to_multiset() =~= u.to_multiset().remove(x));
            assert(u.to_multiset().count(x) > 0);
            assert(u.to_multiset() =~= u.to_multiset().remove(x).insert(x));
            assert(pre.to_multiset().count(x) > 0) by {
                assert(pre.contains(x));
            }
            assert(t.to_multiset() =~= pre.to_multiset().remove(x));
            assert(u.to_multiset() =~= pre.to_multiset());
            // the grown prefix is ordered: left of the slot everything
            // accepted the new level, right of it the old prefix order
            // chains through the slot
            assert forall|a: int, b: int|
                0 <= a < b < i + 1 implies listing_le_spec(
                sorting,
                #[trigger] u[a],
                #[trigger] u[b],
            ) by {
                let ki = k as int;
                if b < ki {
                    assert(u[a] == t[a] && u[b] == t[b]);
                } else if a < ki && b == ki {
                    assert(u[a] == t[a] && u[b] == x);
                } else if a < ki && b > ki {
                    assert(u[a] == t[a] && u[b] == t[b - 1]);
                } else if a == ki && b > ki {
                    assert(u[a] == x && u[b] == t[b - 1]);
                    if b - 1 > ki {
                        lemma_listing_le_trans(sorting, x, t[ki], t[b - 1]);
                    }
                } else {
                    assert(u[a] == t[a - 1] && u[b] == t[b - 1]);
                }
            }
        }
        i = i + 1;
    }
}

} // verus!
