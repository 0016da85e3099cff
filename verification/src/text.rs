//! Text helpers: Unicode trimming and lowercasing, prefixes, and the rule by
//! which a configured file type accepts a file extension.
use vstd::prelude::*;

verus! {

/// Characters with the Unicode `White_Space` property, the set that
/// `char::is_whitespace` and `str::trim` use.
pub open spec fn is_white_space(c: char) -> bool {
    let u: u32 = c as u32;
    ||| 0x09 <= u <= 0x0d
    ||| u == 0x20
    ||| u == 0x85
    ||| u == 0xa0
    ||| u == 0x1680
    ||| 0x2000 <= u <= 0x200a
    ||| u == 0x2028
    ||| u == 0x2029
    ||| u == 0x202f
    ||| u == 0x205f
    ||| u == 0x3000
}

/// `s` without its leading white space.
pub open spec fn trim_start(s: Seq<char>) -> Seq<char>
    decreases s.len(),
{
    if s.len() > 0 && is_white_space(s[0]) {
        trim_start(s.drop_first())
    } else {
        s
    }
}

/// `s` without its trailing white space.
pub open spec fn trim_end(s: Seq<char>) -> Seq<char>
    decreases s.len(),
{
    if s.len() > 0 && is_white_space(s.last()) {
        trim_end(s.drop_last())
    } else {
        s
    }
}

/// `s` without leading and trailing white space.
pub open spec fn trimmed(s: Seq<char>) -> Seq<char> {
    trim_end(trim_start(s))
}

/// The full Unicode lowercase mapping of `s`, as `str::to_lowercase` computes it.
pub uninterp spec fn lowercase(s: Seq<char>) -> Seq<char>;

/// Decides `is_white_space` for one character, as `char::is_whitespace` does.
pub fn is_white_space_char(c: char) -> (b: bool)
    ensures
        b == is_white_space(c),
{
    let u: u32 = c as u32;
    (0x09 <= u && u <= 0x0d) || u == 0x20 || u == 0x85 || u == 0xa0 || u == 0x1680
        || (0x2000 <= u && u <= 0x200a) || u == 0x2028 || u == 0x2029 || u == 0x202f
        || u == 0x205f || u == 0x3000
}

/// Dropping `k` leading white-space characters, when the next one is not white
/// space, is `trim_start`.
proof fn lemma_trim_start_skip(s: Seq<char>, k: int)
    requires
        0 <= k <= s.len(),
        forall|i: int| 0 <= i < k ==> is_white_space(#[trigger] s[i]),
        k == s.len() || !is_white_space(s[k]),
    ensures
        trim_start(s) == s.skip(k),
    decreases k,
{
    if k == 0 {
        assert(s.skip(0) =~= s);
    } else {
        let t = s.drop_first();
        assert forall|i: int| 0 <= i < k - 1 implies is_white_space(#[trigger] t[i]) by {
            assert(t[i] == s[i + 1]);
        }
        if k - 1 < t.len() {
            assert(t[k - 1] == s[k]);
        }
        lemma_trim_start_skip(t, k - 1);
        assert(t.skip(k - 1) =~= s.skip(k));
    }
}

/// Keeping the first `e` characters, when all after them are white space and
/// the last kept one is not, is `trim_end`.
proof fn lemma_trim_end_take(s: Seq<char>, e: int)
    requires
        0 <= e <= s.len(),
        forall|i: int| e <= i < s.len() ==> is_white_space(#[trigger] s[i]),
        e == 0 || !is_white_space(s[e - 1]),
    ensures
        trim_end(s) == s.take(e),
    decreases s.len() - e,
{
    if e == s.len() {
        assert(s.take(e) =~= s);
        if s.len() > 0 {
            assert(s.last() == s[e - 1]);
        }
    } else {
        let t = s.drop_last();
        assert(s.last() == s[s.len() - 1]);
        assert forall|i: int| e <= i < t.len() implies is_white_space(#[trigger] t[i]) by {
            assert(t[i] == s[i]);
        }
        if e > 0 {
            assert(t[e - 1] == s[e - 1]);
        }
        lemma_trim_end_take(t, e);
        assert(t.take(e) =~= s.take(e));
    }
}

/// `trim_start` drops the white space before the first other character.
proof fn lemma_trim_start_shape(s: Seq<char>) -> (k: int)
    ensures
        0 <= k <= s.len(),
        trim_start(s) == s.skip(k),
        forall|i: int| 0 <= i < k ==> is_white_space(#[trigger] s[i]),
        k == s.len() || !is_white_space(s[k]),
    decreases s.len(),
{
    if s.len() > 0 && is_white_space(s[0]) {
        let t = s.drop_first();
        let k1 = lemma_trim_start_shape(t);
        assert(t.skip(k1) =~= s.skip(k1 + 1));
        assert forall|i: int| 0 <= i < k1 + 1 implies is_white_space(#[trigger] s[i]) by {
            if i > 0 {
                assert(s[i] == t[i - 1]);
            }
        }
        if k1 < t.len() {
            assert(s[k1 + 1] == t[k1]);
        }
        k1 + 1
    } else {
        assert(s.skip(0) =~= s);
        0
    }
}

/// `trim_end` drops the white space after the last other character.
proof fn lemma_trim_end_shape(s: Seq<char>) -> (e: int)
    ensures
        0 <= e <= s.len(),
        trim_end(s) == s.take(e),
        forall|i: int| e <= i < s.len() ==> is_white_space(#[trigger] s[i]),
        e == 0 || !is_white_space(s[e - 1]),
    decreases s.len(),
{
    if s.len() > 0 && is_white_space(s.last()) {
        let t = s.drop_last();
        let e1 = lemma_trim_end_shape(t);
        assert(t.take(e1) =~= s.take(e1));
        assert forall|i: int| e1 <= i < s.len() implies is_white_space(#[trigger] s[i]) by {
            if i < t.len() {
                assert(s[i] == t[i]);
            }
        }
        if e1 > 0 {
            assert(s[e1 - 1] == t[e1 - 1]);
        }
        e1
    } else {
        assert(s.take(s.len() as int) =~= s);
        s.len() as int
    }
}

/// Trimming keeps one stretch of the text as it is and removes only white
/// space around it: the trimmed text is the part of `s` from `range.0` up to
/// `range.1`, every character before and after that part is white space, and
/// the part, when not empty, neither begins nor ends with white space.
pub proof fn lemma_trimmed_shape(s: Seq<char>) -> (range: (int, int))
    ensures
        0 <= range.0 <= range.1 <= s.len(),
        trimmed(s) == s.subrange(range.0, range.1),
        forall|i: int| 0 <= i < range.0 ==> is_white_space(#[trigger] s[i]),
        forall|i: int| range.1 <= i < s.len() ==> is_white_space(#[trigger] s[i]),
        range.0 < range.1 ==> !is_white_space(s[range.0]) && !is_white_space(s[range.1 - 1]),
{
    let k = lemma_trim_start_shape(s);
    let u = s.skip(k);
    let e = lemma_trim_end_shape(u);
    assert(u.take(e) =~= s.subrange(k, k + e));
    assert forall|i: int| k + e <= i < s.len() implies is_white_space(#[trigger] s[i]) by {
        assert(s[i] == u[i - k]);
    }
    if e > 0 {
        assert(s[k + e - 1] == u[e - 1]);
    }
    (k, k + e)
}

/// `s` without leading and trailing white space, as `str::trim` gives it.
pub fn trim(s: &str) -> (r: &str)
    ensures
        r@ == trimmed(s@),
{
    let n: usize = s.unicode_len();
    let mut start: usize = 0;
    while start < n && is_white_space_char(s.get_char(start))
        invariant
            n == s@.len(),
            start <= n,
            forall|i: int| 0 <= i < start ==> is_white_space(#[trigger] s@[i]),
        decreases n - start,
    {
        start = start + 1;
    }
    let mut end: usize = n;
    while end > start && is_white_space_char(s.get_char(end - 1))
        invariant
            n == s@.len(),
            start <= end <= n,
            forall|i: int| end <= i < n ==> is_white_space(#[trigger] s@[i]),
        decreases end,
    {
        end = end - 1;
    }
    proof {
        lemma_trim_start_skip(s@, start as int);
        let u = s@.skip(start as int);
        assert forall|i: int| end - start <= i < u.len() implies is_white_space(#[trigger] u[i]) by {
            assert(u[i] == s@[i + start]);
        }
        if end > start {
            assert(u[end - start - 1] == s@[end - 1]);
        }
        lemma_trim_end_take(u, end - start);
        assert(u.take(end - start) =~= s@.subrange(start as int, end as int));
    }
    s.substring_char(start, end)
}

/// Every character of `s` is ASCII.
pub open spec fn is_ascii_text(s: Seq<char>) -> bool {
    forall|i: int| 0 <= i < s.len() ==> (#[trigger] s[i] as u32) < 128
}

/// The lowercase of an ASCII character: `A`..`Z` become `a`..`z`, the others stay.
pub open spec fn ascii_lower_char(c: char) -> char {
    if 'A' <= c && c <= 'Z' {
        ((c as u32) + 32) as char
    } else {
        c
    }
}

/// `s` with its ASCII capitals lowercased.
pub open spec fn ascii_lowercase(s: Seq<char>) -> Seq<char> {
    s.map_values(|c: char| ascii_lower_char(c))
}

/// Trimming keeps ASCII text ASCII.
pub proof fn lemma_trimmed_ascii(s: Seq<char>)
    requires
        is_ascii_text(s),
    ensures
        is_ascii_text(trimmed(s)),
{
    lemma_trim_start_ascii(s);
    lemma_trim_end_ascii(trim_start(s));
}

proof fn lemma_trim_start_ascii(s: Seq<char>)
    requires
        is_ascii_text(s),
    ensures
        is_ascii_text(trim_start(s)),
    decreases s.len(),
{
    if s.len() > 0 && is_white_space(s[0]) {
        let t = s.drop_first();
        assert forall|i: int| 0 <= i < t.len() implies (#[trigger] t[i] as u32) < 128 by {
            assert(t[i] == s[i + 1]);
        }
        lemma_trim_start_ascii(t);
    }
}

proof fn lemma_trim_end_ascii(s: Seq<char>)
    requires
        is_ascii_text(s),
    ensures
        is_ascii_text(trim_end(s)),
    decreases s.len(),
{
    if s.len() > 0 && is_white_space(s.last()) {
        let t = s.drop_last();
        assert forall|i: int| 0 <= i < t.len() implies (#[trigger] t[i] as u32) < 128 by {
            assert(t[i] == s[i]);
        }
        lemma_trim_end_ascii(t);
    }
}

/// Calls `str::to_lowercase`: its result is the Unicode lowercase mapping of the
/// argument, named `lowercase`. On ASCII text that mapping lowercases the
/// letters `A`..`Z` and keeps every other character, as std documents.
#[verifier::external_body]
pub(crate) fn to_lowercase(s: &str) -> (r: String)
    ensures
        r@ == lowercase(s@),
        is_ascii_text(s@) ==> r@ == ascii_lowercase(s@),
{
    s.to_lowercase()
}

/// Whether `prefix` is a prefix of `s`, character by character.
pub fn starts_with(s: &str, prefix: &str) -> (r: bool)
    ensures
        r == prefix@.is_prefix_of(s@),
{
    let n: usize = s.unicode_len();
    let m: usize = prefix.unicode_len();
    if m > n {
        return false;
    }
    let mut i: usize = 0;
    while i < m
        invariant
            n == s@.len(),
            m == prefix@.len(),
            m <= n,
            i <= m,
            forall|j: int| 0 <= j < i ==> prefix@[j] == s@[j],
        decreases m - i,
    {
        if s.get_char(i) != prefix.get_char(i) {
            return false;
        }
        i = i + 1;
    }
    assert(prefix@ =~= s@.take(m as int));
    true
}

/// The first `n` characters of `s` (all of `s` when it is shorter), as
/// `s.chars().take(n).collect::<String>()` gives them.
pub fn first_chars(s: &str, n: usize) -> (r: String)
    ensures
        r@ == s@.take(if n < s@.len() { n as int } else { s@.len() as int }),
{
    let len: usize = s.unicode_len();
    let end: usize = if n < len { n } else { len };
    let part = s.substring_char(0, end);
    String::from_str(part)
}

/// A configured file type `entry` accepts the lowercased extension `ext`
/// when the trimmed, lowercased entry equals the extension with or without
/// its leading dot.
pub open spec fn type_entry_accepts(entry: Seq<char>, ext: Seq<char>) -> bool {
    let normalized = lowercase(trimmed(entry));
    normalized == seq!['.'] + ext || normalized == ext
}

/// Some entry of `types` accepts the lowercased extension `ext`.
pub open spec fn some_type_accepts(types: Seq<Seq<char>>, ext: Seq<char>) -> bool {
    exists|i: int| 0 <= i < types.len() && type_entry_accepts(#[trigger] types[i], ext)
}

/// An entry accepts an extension exactly when, trimmed and lowercased, it
/// equals the extension or a dot followed by it; being a prefix of either is
/// not enough.
pub proof fn lemma_entry_accepts_needs_equality(entry: Seq<char>, ext: Seq<char>)
    ensures
        type_entry_accepts(entry, ext) <==> (lowercase(trimmed(entry)) == seq!['.'] + ext
            || lowercase(trimmed(entry)) == ext),
{
}

/// Some entry accepts an extension exactly when one of them, trimmed and
/// lowercased, equals the extension or a dot followed by it.
pub proof fn lemma_some_type_accepts_needs_equal_entry(types: Seq<Seq<char>>, ext: Seq<char>)
    ensures
        some_type_accepts(types, ext) <==> exists|i: int| 0 <= i < types.len()
            && (lowercase(trimmed(#[trigger] types[i])) == seq!['.'] + ext || lowercase(trimmed(types[i])) == ext),
{
    if some_type_accepts(types, ext) {
        let i = choose|i: int| 0 <= i < types.len() && type_entry_accepts(#[trigger] types[i], ext);
        assert(lowercase(trimmed(types[i])) == seq!['.'] + ext || lowercase(trimmed(types[i])) == ext);
    }
    if exists|i: int| 0 <= i < types.len()
        && (lowercase(trimmed(#[trigger] types[i])) == seq!['.'] + ext || lowercase(trimmed(types[i])) == ext) {
        let i = choose|i: int| 0 <= i < types.len()
            && (lowercase(trimmed(#[trigger] types[i])) == seq!['.'] + ext || lowercase(trimmed(types[i])) == ext);
        assert(type_entry_accepts(types[i], ext));
    }
}

/// Decides `type_entry_accepts` for one configured entry.
pub fn entry_accepts(entry: &str, ext: &str) -> (r: bool)
    ensures
        r == type_entry_accepts(entry@, ext@),
        r == (lowercase(trimmed(entry@)) == seq!['.'] + ext@ || lowercase(trimmed(entry@)) == ext@),
        is_ascii_text(entry@) ==> r == (ascii_lowercase(trimmed(entry@)) == seq!['.'] + ext@
            || ascii_lowercase(trimmed(entry@)) == ext@),
{
    let trimmed_entry = trim(entry);
    proof {
        if is_ascii_text(entry@) {
            lemma_trimmed_ascii(entry@);
        }
    }
    let normalized = to_lowercase(trimmed_entry);
    let dotted = String::from_str(".").concat(ext);
    proof {
        reveal_strlit(".");
    }
    assert(dotted@ =~= seq!['.'] + ext@);
    let plain = String::from_str(ext);
    normalized == dotted || normalized == plain
}

/// Decides whether some entry of `types` accepts the lowercased extension `ext`.
pub fn any_type_accepts(types: &Vec<String>, ext: &str) -> (r: bool)
    ensures
        r == some_type_accepts(types.deep_view(), ext@),
        r <==> exists|i: int| 0 <= i < types.deep_view().len()
            && (lowercase(trimmed(#[trigger] types.deep_view()[i])) == seq!['.'] + ext@
            || lowercase(trimmed(types.deep_view()[i])) == ext@),
{
    proof {
        lemma_some_type_accepts_needs_equal_entry(types.deep_view(), ext@);
    }
    let ghost tv = types.deep_view();
    let mut i: usize = 0;
    while i < types.len()
        invariant
            tv == types.deep_view(),
            tv.len() == types.len(),
            i <= types.len(),
            forall|j: int| 0 <= j < i ==> !type_entry_accepts(#[trigger] tv[j], ext@),
        decreases types.len() - i,
    {
        if entry_accepts(types[i].as_str(), ext) {
            assert(type_entry_accepts(tv[i as int], ext@));
            return true;
        }
        i = i + 1;
    }
    false
}

} // verus!
