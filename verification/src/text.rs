//! Character-level helpers shared by the string-processing modules.
use vstd::prelude::*;

verus! {

broadcast use vstd::string::group_string_axioms;

/// `i` is the position of the first occurrence of `c` in `s`.
pub open spec fn is_first_index(s: Seq<char>, c: char, i: int) -> bool {
    &&& 0 <= i < s.len()
    &&& s[i] == c
    &&& forall|j: int| 0 <= j < i ==> s[j] != c
}

/// Position of the first occurrence of `c` in `s`, if any.
pub open spec fn first_index(s: Seq<char>, c: char) -> Option<int> {
    if exists|i: int| is_first_index(s, c, i) {
        Some(choose|i: int| is_first_index(s, c, i))
    } else {
        None
    }
}

/// The first occurrence of a character is unique.
pub proof fn lemma_first_index_unique(s: Seq<char>, c: char, i: int)
    requires
        is_first_index(s, c, i),
    ensures
        first_index(s, c) == Some(i),
{
    let k = choose|k: int| is_first_index(s, c, k);
    assert(is_first_index(s, c, k));
    if k < i {
        assert(s[k] != c);
    } else if k > i {
        assert(s[i] != c);
    }
}

/// A character that does not occur has no first occurrence.
pub proof fn lemma_first_index_none(s: Seq<char>, c: char)
    requires
        forall|j: int| 0 <= j < s.len() ==> s[j] != c,
    ensures
        first_index(s, c) == None::<int>,
{
}

/// Character view of an optional string.
pub open spec fn opt_view(o: Option<String>) -> Option<Seq<char>> {
    match o {
        Some(s) => Some(s@),
        None => None,
    }
}

/// Copies an optional string.
pub fn clone_opt_string(s: &Option<String>) -> (r: Option<String>)
    ensures
        opt_view(r) == opt_view(*s),
{
    match s {
        Some(x) => Some(x.clone()),
        None => None,
    }
}

/// Copies the characters of `s` into a vector.
pub fn chars_of(s: &str) -> (v: Vec<char>)
    ensures
        v@ == s@,
{
    let mut v: Vec<char> = Vec::new();
    for c in it: s.chars()
        invariant
            v@ == it.seq().take(it.index() as int),
    {
        v.push(c);
    }
    assert(v@ =~= s@);
    v
}

/// Appends one character to a string (`String::push`).
#[verifier::external_body]
pub(crate) fn push_char(s: &mut String, c: char)
    ensures
        final(s)@ == old(s)@.push(c),
{
    s.push(c);
}

/// Appends the characters `cs[from..to]` to `s`.
pub fn push_chars(s: &mut String, cs: &Vec<char>, from: usize, to: usize)
    requires
        from <= to <= cs.len(),
    ensures
        final(s)@ == old(s)@ + cs@.subrange(from as int, to as int),
{
    let mut i = from;
    while i < to
        invariant
            from <= i <= to <= cs.len(),
            s@ == old(s)@ + cs@.subrange(from as int, i as int),
        decreases to - i,
    {
        push_char(s, cs[i]);
        i = i + 1;
        assert(cs@.subrange(from as int, i as int) =~= cs@.subrange(from as int, (i - 1) as int).push(cs@[i - 1]));
    }
}

/// A new string holding the characters `cs[from..to]`.
pub fn string_of(cs: &Vec<char>, from: usize, to: usize) -> (s: String)
    requires
        from <= to <= cs.len(),
    ensures
        s@ == cs@.subrange(from as int, to as int),
{
    let mut s = String::new();
    push_chars(&mut s, cs, from, to);
    assert(s@ =~= cs@.subrange(from as int, to as int));
    s
}

/// Position of the first `c` in `cs[from..to]`, counted from `from`.
pub fn find_char(cs: &Vec<char>, from: usize, to: usize, c: char) -> (r: Option<usize>)
    requires
        from <= to <= cs.len(),
    ensures
        r matches Some(i) ==> first_index(cs@.subrange(from as int, to as int), c) == Some(i as int),
        r is None ==> first_index(cs@.subrange(from as int, to as int), c) == None::<int>,
{
    let ghost rest = cs@.subrange(from as int, to as int);
    let mut i = from;
    while i < to
        invariant
            from <= i <= to <= cs.len(),
            rest == cs@.subrange(from as int, to as int),
            forall|j: int| 0 <= j < i - from ==> rest[j] != c,
        decreases to - i,
    {
        if cs[i] == c {
            proof {
                assert(is_first_index(rest, c, (i - from) as int));
                lemma_first_index_unique(rest, c, (i - from) as int);
            }
            return Some(i - from);
        }
        i = i + 1;
    }
    proof {
        lemma_first_index_none(rest, c);
    }
    None
}

/// Whether the characters `cs[from..to]` equal `lit`.
pub fn range_eq(cs: &Vec<char>, from: usize, to: usize, lit: &[char]) -> (r: bool)
    requires
        from <= to <= cs.len(),
    ensures
        r == (cs@.subrange(from as int, to as int) == lit@),
{
    if to - from != lit.len() {
        return false;
    }
    let mut i: usize = 0;
    while i < lit.len()
        invariant
            to - from == lit.len(),
            from <= to <= cs.len(),
            i <= lit.len(),
            forall|j: int| 0 <= j < i ==> cs@[from + j] == lit@[j],
        decreases lit.len() - i,
    {
        if cs[from + i] != lit[i] {
            assert(cs@.subrange(from as int, to as int)[i as int] != lit@[i as int]);
            return false;
        }
        i = i + 1;
    }
    assert(cs@.subrange(from as int, to as int) =~= lit@);
    true
}

/// Whether `needle` occurs as a contiguous run of characters in `hay`.
pub open spec fn is_infix(needle: Seq<char>, hay: Seq<char>) -> bool {
    exists|i: int|
        0 <= i && i + needle.len() <= hay.len() && #[trigger] hay.subrange(i, i + needle.len()) == needle
}

/// Whether `hay` contains `needle` (`str::contains` on the strings they spell).
pub fn contains_chars(hay: &Vec<char>, needle: &Vec<char>) -> (r: bool)
    ensures
        r == is_infix(needle@, hay@),
{
    let n = needle.len();
    if n == 0 {
        assert(hay@.subrange(0int, 0int + needle@.len()) =~= needle@);
        return true;
    }
    if n > hay.len() {
        return false;
    }
    let last = hay.len() - n;
    let mut i: usize = 0;
    while i <= last
        invariant
            n == needle@.len(),
            n >= 1,
            last + n == hay@.len(),
            hay@.len() <= usize::MAX,
            i <= last + 1,
            forall|j: int| 0 <= j < i ==> #[trigger] hay@.subrange(j, j + n) != needle@,
        decreases last + 1 - i,
    {
        if range_eq(hay, i, i + n, needle.as_slice()) {
            return true;
        }
        i = i + 1;
    }
    false
}

/// Whether two character vectors are equal.
pub fn chars_eq(a: &Vec<char>, b: &[char]) -> (r: bool)
    ensures
        r == (a@ == b@),
{
    let r = range_eq(a, 0, a.len(), b);
    assert(a@.subrange(0, a.len() as int) =~= a@);
    r
}

/// Whether two strings hold the same characters.
pub fn str_eq(a: &String, b: &String) -> (r: bool)
    ensures
        r == (a@ == b@),
{
    let ca = chars_of(a.as_str());
    let cb = chars_of(b.as_str());
    chars_eq(&ca, cb.as_slice())
}

/// Whether two byte vectors are equal.
pub fn bytes_eq(a: &Vec<u8>, b: &Vec<u8>) -> (r: bool)
    ensures
        r == (a@ == b@),
{
    if a.len() != b.len() {
        return false;
    }
    let mut i: usize = 0;
    while i < a.len()
        invariant
            i <= a.len() == b.len(),
            forall|k: int| 0 <= k < i ==> a@[k] == b@[k],
        decreases a.len() - i,
    {
        if a[i] != b[i] {
            return false;
        }
        i = i + 1;
    }
    assert(a@ =~= b@);
    true
}

/// The lower-case form of a string, as `str::to_lowercase` gives it
/// (full Unicode case mapping).
pub uninterp spec fn lowercase(s: Seq<char>) -> Seq<char>;

/// The ASCII lower-case form of a character: `A`-`Z` become `a`-`z`.
pub open spec fn ascii_lower(c: char) -> char {
    if 'A' <= c <= 'Z' {
        ((c as u32) + 32) as char
    } else {
        c
    }
}

/// `str::to_lowercase`: the result is named by [`lowercase`]; the Unicode case
/// tables it follows are not written out here. Of ASCII text the contract claims
/// what the Unicode mapping plainly gives there: `A`-`Z` become `a`-`z`, every
/// other character stays.
#[verifier::external_body]
pub(crate) fn to_lowercase(s: &str) -> (r: String)
    ensures
        r@ == lowercase(s@),
        (forall|i: int| 0 <= i < s@.len() ==> (#[trigger] s@[i] as u32) < 128) ==> r@ == s@.map_values(
            |c: char| ascii_lower(c),
        ),
{
    s.to_lowercase()
}

// ---------------------------------------------------------------------------
// File names in paths. Both '/' and '\\' separate path components.
// ---------------------------------------------------------------------------

/// Whether `c` separates path components.
pub open spec fn is_sep(c: char) -> bool {
    c == '/' || c == '\\'
}

/// Index just after the last separator in `s[..n]` (0 when there is none).
pub open spec fn name_start(s: Seq<char>, n: int) -> int
    decreases n,
{
    if n <= 0 {
        0
    } else if is_sep(s[n - 1]) {
        n
    } else {
        name_start(s, n - 1)
    }
}

/// End of the last component of `s[..n]` that can be a file name: trailing
/// separators and trailing "." components are passed over.
pub open spec fn name_end(s: Seq<char>, n: int) -> int
    decreases n,
{
    if n <= 0 {
        0
    } else if is_sep(s[n - 1]) {
        name_end(s, n - 1)
    } else if s[n - 1] == '.' && (n == 1 || is_sep(s[n - 2])) {
        name_end(s, n - 1)
    } else {
        n
    }
}

/// The file name of a path, as `std::path::Path::file_name` gives it (empty
/// where that gives none): the last component, after passing over trailing
/// separators and "." components; nothing when that component is "..".
pub open spec fn file_name(s: Seq<char>) -> Seq<char> {
    let e = name_end(s, s.len() as int);
    let name = s.subrange(name_start(s, e), e);
    if name == seq!['.', '.'] {
        Seq::empty()
    } else {
        name
    }
}

/// Index of the last '.' in `s[..n]`, or -1.
pub open spec fn last_dot(s: Seq<char>, n: int) -> int
    decreases n,
{
    if n <= 0 {
        -1
    } else if s[n - 1] == '.' {
        n - 1
    } else {
        last_dot(s, n - 1)
    }
}

/// Whether a file name has an extension: a '.' that is not its first character
/// (and the name is not "..").
pub open spec fn has_extension(name: Seq<char>) -> bool {
    name != seq!['.', '.'] && last_dot(name, name.len() as int) > 0
}

/// The file name without its extension.
pub open spec fn file_stem(name: Seq<char>) -> Seq<char> {
    if has_extension(name) {
        name.subrange(0, last_dot(name, name.len() as int))
    } else {
        name
    }
}

/// The extension of a file name, empty when it has none.
pub open spec fn extension(name: Seq<char>) -> Seq<char> {
    if has_extension(name) {
        name.subrange(last_dot(name, name.len() as int) + 1, name.len() as int)
    } else {
        Seq::empty()
    }
}

proof fn lemma_name_start_bounds(s: Seq<char>, n: int)
    requires
        0 <= n <= s.len(),
    ensures
        0 <= name_start(s, n) <= n,
    decreases n,
{
    if n > 0 {
        lemma_name_start_bounds(s, n - 1);
    }
}

proof fn lemma_last_dot_bounds(s: Seq<char>, n: int)
    requires
        0 <= n <= s.len(),
    ensures
        -1 <= last_dot(s, n) < n,
    decreases n,
{
    if n > 0 {
        lemma_last_dot_bounds(s, n - 1);
    }
}

/// The file name of the path `s`.
pub fn file_name_of(s: &String) -> (r: String)
    ensures
        r@ == file_name(s@),
{
    let cs = chars_of(s.as_str());
    let n = cs.len();
    let mut e = n;
    while e > 0 && (cs[e - 1] == '/' || cs[e - 1] == '\\' || (cs[e - 1] == '.' && (e == 1 || cs[e - 2] == '/'
        || cs[e - 2] == '\\')))
        invariant
            e <= n == cs@.len(),
            cs@ == s@,
            name_end(s@, e as int) == name_end(s@, n as int),
        decreases e,
    {
        e = e - 1;
    }
    let mut i = e;
    while i > 0 && cs[i - 1] != '/' && cs[i - 1] != '\\'
        invariant
            i <= e <= n == cs@.len(),
            cs@ == s@,
            name_start(s@, i as int) == name_start(s@, e as int),
        decreases i,
    {
        i = i - 1;
    }
    proof {
        lemma_name_start_bounds(s@, e as int);
    }
    let name = string_of(&cs, i, e);
    if e - i == 2 && cs[i] == '.' && cs[i + 1] == '.' {
        assert(name@ =~= seq!['.', '.']);
        return String::new();
    }
    proof {
        if name@ == seq!['.', '.'] {
            assert(name@[0] == cs@[i as int]);
            assert(name@[1] == cs@[i + 1]);
        }
    }
    name
}

/// Index of the last '.' of `cs`, or -1 as `None`.
fn last_dot_of(cs: &Vec<char>) -> (r: Option<usize>)
    ensures
        match r {
            Some(k) => last_dot(cs@, cs@.len() as int) == k as int,
            None => last_dot(cs@, cs@.len() as int) == -1,
        },
{
    let n = cs.len();
    let mut i = n;
    while i > 0 && cs[i - 1] != '.'
        invariant
            i <= n == cs@.len(),
            last_dot(cs@, i as int) == last_dot(cs@, n as int),
        decreases i,
    {
        i = i - 1;
    }
    if i == 0 {
        None
    } else {
        Some(i - 1)
    }
}

/// Whether `cs` is "..".
fn is_dot_dot(cs: &Vec<char>) -> (r: bool)
    ensures
        r == (cs@ == seq!['.', '.']),
{
    let r = cs.len() == 2 && cs[0] == '.' && cs[1] == '.';
    if r {
        assert(cs@ =~= seq!['.', '.']);
    }
    r
}

/// The stem of the file name `name`.
pub fn file_stem_of(name: &String) -> (r: String)
    ensures
        r@ == file_stem(name@),
{
    let cs = chars_of(name.as_str());
    proof {
        lemma_last_dot_bounds(cs@, cs@.len() as int);
    }
    match last_dot_of(&cs) {
        Some(k) => {
            if k > 0 && !is_dot_dot(&cs) {
                return string_of(&cs, 0, k);
            }
        },
        None => {},
    }
    string_of(&cs, 0, cs.len())
}

/// The extension of the file name `name` (empty when it has none).
pub fn extension_of(name: &String) -> (r: String)
    ensures
        r@ == extension(name@),
{
    let cs = chars_of(name.as_str());
    let len = cs.len();
    proof {
        lemma_last_dot_bounds(cs@, cs@.len() as int);
    }
    match last_dot_of(&cs) {
        Some(k) => {
            if k > 0 && !is_dot_dot(&cs) {
                return string_of(&cs, k + 1, cs.len());
            }
        },
        None => {},
    }
    String::new()
}

} // verus!
