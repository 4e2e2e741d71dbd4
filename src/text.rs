//! Text and path helpers over `String`, with their meaning stated on `Seq<char>`.
//!
//! Paths are `/`-separated strings; the rules here follow the shape of
//! `std::path` for the cases a build tree produces.

use vstd::prelude::*;

verus! {

/// Position of the last occurrence of `c` in `s`, or -1.
pub open spec fn last_index_of(s: Seq<char>, c: char) -> int
    decreases s.len(),
{
    if s.len() == 0 {
        -1
    } else if s.last() == c {
        s.len() - 1
    } else {
        last_index_of(s.drop_last(), c)
    }
}

pub proof fn lemma_last_index_bounds(s: Seq<char>, c: char)
    ensures
        -1 <= last_index_of(s, c) < s.len(),
        last_index_of(s, c) >= 0 ==> s[last_index_of(s, c)] == c,
        forall|j: int| last_index_of(s, c) < j < s.len() ==> s[j] != c,
    decreases s.len(),
{
    if s.len() > 0 && s.last() != c {
        lemma_last_index_bounds(s.drop_last(), c);
        assert forall|j: int| last_index_of(s, c) < j < s.len() implies s[j] != c by {
            if j < s.len() - 1 {
                assert(s.drop_last()[j] == s[j]);
            }
        }
    }
}

/// `base` joined with `rel`: an absolute `rel` replaces `base`, and a
/// separator is put between them when `base` is non-empty and lacks one.
pub open spec fn join_path(base: Seq<char>, rel: Seq<char>) -> Seq<char> {
    if rel.len() > 0 && rel[0] == '/' {
        rel
    } else if base.len() == 0 || base.last() == '/' {
        base + rel
    } else {
        base + seq!['/'] + rel
    }
}

/// The last component of a path.
pub open spec fn file_name(p: Seq<char>) -> Seq<char> {
    p.subrange(last_index_of(p, '/') + 1, p.len() as int)
}

/// The extension of a file name: what follows its last dot, when that dot
/// is not the first character.
pub open spec fn extension(name: Seq<char>) -> Option<Seq<char>> {
    let d = last_index_of(name, '.');
    if d > 0 {
        Some(name.subrange(d + 1, name.len() as int))
    } else {
        None
    }
}

/// A file name without its extension.
pub open spec fn file_stem(name: Seq<char>) -> Seq<char> {
    let d = last_index_of(name, '.');
    if d > 0 {
        name.subrange(0, d)
    } else {
        name
    }
}

/// The tag of a file name `<stem>.<tag>.<ext>`: the part of its stem after
/// the stem's last dot. A stem without a dot carries no tag.
pub open spec fn feature_tag(name: Seq<char>) -> Option<Seq<char>> {
    let stem = file_stem(name);
    let d = last_index_of(stem, '.');
    if d >= 0 {
        Some(stem.subrange(d + 1, stem.len() as int))
    } else {
        None
    }
}

/// Whether a path names a C source file.
pub open spec fn is_c_source_spec(p: Seq<char>) -> bool {
    extension(file_name(p)) == Some(seq!['c'])
}

/// A path with the extension of its file name replaced by `o`.
pub open spec fn object_relative(p: Seq<char>) -> Seq<char> {
    let start = last_index_of(p, '/') + 1;
    let d = last_index_of(file_name(p), '.');
    if d > 0 {
        p.subrange(0, start + d) + seq!['.', 'o']
    } else {
        p + seq!['.', 'o']
    }
}

/// Decimal digits of a natural number, most significant first.
pub open spec fn decimal_digits(n: nat) -> Seq<char>
    decreases n,
{
    let digit = seq!['0', '1', '2', '3', '4', '5', '6', '7', '8', '9'][(n % 10) as int];
    if n < 10 {
        seq![digit]
    } else {
        decimal_digits(n / 10).push(digit)
    }
}

/// What `str::to_uppercase` makes of a string; it depends on the characters alone.
pub uninterp spec fn upper_of(s: Seq<char>) -> Seq<char>;

/// Relies on `u32`'s `Display` (through `to_string`): decimal digits, no sign, no padding.
#[verifier::external_body]
pub(crate) fn decimal(n: u32) -> (r: String)
    ensures
        r@ == decimal_digits(n as nat),
{
    n.to_string()
}

/// Relies on `str::to_uppercase`: the upper-case mapping of each character.
#[verifier::external_body]
pub(crate) fn to_upper(s: &str) -> (r: String)
    ensures
        r@ == upper_of(s@),
{
    s.to_uppercase()
}

/// `a` followed by `b`.
pub fn concat(a: &str, b: &str) -> (r: String)
    ensures
        r@ == a@ + b@,
{
    let s = String::from_str(a);
    s.concat(b)
}

/// Characters `from..to` of `s`.
pub fn slice(s: &str, from: usize, to: usize) -> (r: String)
    requires
        from <= to <= s@.len(),
    ensures
        r@ == s@.subrange(from as int, to as int),
{
    s.substring_char(from, to).to_owned()
}

/// The position of the last `c` in `s`, if any.
pub fn find_last(s: &str, c: char) -> (r: Option<usize>)
    ensures
        match r {
            Some(i) => i == last_index_of(s@, c),
            None => last_index_of(s@, c) == -1,
        },
{
    let n = s.unicode_len();
    let mut i: usize = n;
    assert(s@.subrange(0, n as int) =~= s@);
    while i > 0
        invariant
            i <= n == s@.len(),
            last_index_of(s@, c) == last_index_of(s@.subrange(0, i as int), c),
        decreases i,
    {
        assert(s@.subrange(0, i as int).drop_last() =~= s@.subrange(0, i - 1));
        if s.get_char(i - 1) == c {
            return Some(i - 1);
        }
        i = i - 1;
    }
    assert(s@.subrange(0, 0) =~= Seq::<char>::empty());
    None
}

/// Whether `s` begins with `prefix`.
pub fn starts_with(s: &str, prefix: &str) -> (r: bool)
    ensures
        r == (prefix@.len() <= s@.len() && s@.subrange(0, prefix@.len() as int) == prefix@),
{
    let n = s.unicode_len();
    let m = prefix.unicode_len();
    if m > n {
        return false;
    }
    let mut i: usize = 0;
    while i < m
        invariant
            m <= n,
            n == s@.len(),
            m == prefix@.len(),
            i <= m,
            forall|j: int| 0 <= j < i ==> s@[j] == prefix@[j],
        decreases m - i,
    {
        if s.get_char(i) != prefix.get_char(i) {
            assert(s@.subrange(0, m as int)[i as int] != prefix@[i as int]);
            return false;
        }
        i = i + 1;
    }
    assert(s@.subrange(0, m as int) =~= prefix@);
    true
}

/// Whether two strings hold the same characters.
pub fn same_text(a: &str, b: &str) -> (r: bool)
    ensures
        r == (a@ == b@),
{
    if a.unicode_len() != b.unicode_len() {
        return false;
    }
    let r = starts_with(a, b);
    assert(a@.subrange(0, b@.len() as int) =~= a@);
    r
}

/// `base` joined with `rel` as a path.
pub fn join(base: &str, rel: &str) -> (r: String)
    ensures
        r@ == join_path(base@, rel@),
{
    proof {
        reveal_strlit("/");
    }
    let n = base.unicode_len();
    if rel.unicode_len() > 0 && rel.get_char(0) == '/' {
        rel.to_owned()
    } else if n == 0 || base.get_char(n - 1) == '/' {
        concat(base, rel)
    } else {
        let with_sep = concat(base, "/");
        concat(with_sep.as_str(), rel)
    }
}

/// The last component of a path.
pub fn path_file_name(p: &str) -> (r: String)
    ensures
        r@ == file_name(p@),
{
    proof {
        lemma_last_index_bounds(p@, '/');
    }
    let n = p.unicode_len();
    match find_last(p, '/') {
        Some(i) => slice(p, i + 1, n),
        None => slice(p, 0, n),
    }
}

/// The tag that a file name carries before its extension, if any.
pub fn file_tag(name: &str) -> (r: Option<String>)
    ensures
        match r {
            Some(t) => feature_tag(name@) == Some(t@),
            None => feature_tag(name@) is None,
        },
{
    proof {
        lemma_last_index_bounds(name@, '.');
    }
    let n = name.unicode_len();
    let stem = match find_last(name, '.') {
        Some(d) => if d > 0 {
            slice(name, 0, d)
        } else {
            slice(name, 0, n)
        },
        None => slice(name, 0, n),
    };
    assert(stem@ == file_stem(name@));
    proof {
        lemma_last_index_bounds(stem@, '.');
    }
    let m = stem.unicode_len();
    match find_last(stem.as_str(), '.') {
        Some(d) => Some(slice(stem.as_str(), d + 1, m)),
        None => None,
    }
}

/// Whether a path names a C source file (its extension is `c`).
pub fn is_c_source(p: &str) -> (r: bool)
    ensures
        r == is_c_source_spec(p@),
{
    let name = path_file_name(p);
    proof {
        lemma_last_index_bounds(name@, '.');
    }
    let n = name.unicode_len();
    match find_last(name.as_str(), '.') {
        Some(d) => {
            if d > 0 && n - d == 2 && name.as_str().get_char(d + 1) == 'c' {
                assert(name@.subrange(d + 1, n as int) =~= seq!['c']);
                true
            } else {
                assert(d > 0 ==> name@.subrange(d + 1, n as int).len() != 1 || name@.subrange(
                    d + 1,
                    n as int,
                )[0] != 'c');
                false
            }
        },
        None => false,
    }
}

/// The path with the extension of its file name replaced by `o`.
pub fn with_object_extension(p: &str) -> (r: String)
    ensures
        r@ == object_relative(p@),
{
    proof {
        reveal_strlit(".o");
        lemma_last_index_bounds(p@, '/');
    }
    let n = p.unicode_len();
    let start: usize = match find_last(p, '/') {
        Some(i) => i + 1,
        None => 0,
    };
    let name = slice(p, start, n);
    assert(name@ == file_name(p@));
    proof {
        lemma_last_index_bounds(name@, '.');
    }
    match find_last(name.as_str(), '.') {
        Some(d) => if d > 0 {
            let head = slice(p, 0, start + d);
            concat(head.as_str(), ".o")
        } else {
            concat(p, ".o")
        },
        None => concat(p, ".o"),
    }
}

} // verus!
