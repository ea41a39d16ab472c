//! Character-level helpers shared by the parsers.
use vstd::prelude::*;
use vstd::string::*;

verus! {

/// The characters that carry the Unicode `White_Space` property.
pub open spec fn is_white_space(c: char) -> bool {
    ||| ('\u{0009}' <= c && c <= '\u{000D}')
    ||| c == '\u{0020}'
    ||| c == '\u{0085}'
    ||| c == '\u{00A0}'
    ||| c == '\u{1680}'
    ||| ('\u{2000}' <= c && c <= '\u{200A}')
    ||| c == '\u{2028}'
    ||| c == '\u{2029}'
    ||| c == '\u{202F}'
    ||| c == '\u{205F}'
    ||| c == '\u{3000}'
}

/// `s` without its leading white space.
pub open spec fn trim_start_ws(s: Seq<char>) -> Seq<char>
    decreases s.len(),
{
    if s.len() > 0 && is_white_space(s[0]) {
        trim_start_ws(s.drop_first())
    } else {
        s
    }
}

/// `s` without its trailing white space.
pub open spec fn trim_end_ws(s: Seq<char>) -> Seq<char>
    decreases s.len(),
{
    if s.len() > 0 && is_white_space(s.last()) {
        trim_end_ws(s.drop_last())
    } else {
        s
    }
}

/// `s` begins with `prefix`.
pub open spec fn has_prefix(s: Seq<char>, prefix: Seq<char>) -> bool {
    prefix.len() <= s.len() && s.take(prefix.len() as int) == prefix
}

/// `s` without leading and trailing white space.
pub open spec fn trim_ws(s: Seq<char>) -> Seq<char> {
    trim_end_ws(trim_start_ws(s))
}

/// Calls `str::trim`, which returns the slice of `s` left after removing the leading
/// and trailing characters that have the Unicode `White_Space` property.
#[verifier::external_body]
pub(crate) fn trim(s: &str) -> (r: &str)
    ensures
        r@ == trim_ws(s@),
{
    s.trim()
}

/// Whether two strings hold the same characters.
pub(crate) fn same_text(a: &str, b: &str) -> (r: bool)
    ensures
        r == (a@ == b@),
{
    let x = a.to_owned();
    let y = b.to_owned();
    x == y
}

/// The concatenation of `a` and `b` as a new string.
pub(crate) fn join(a: &str, b: &str) -> (r: String)
    ensures
        r@ == a@ + b@,
{
    let x = String::from_str(a);
    x.concat(b)
}

/// Removing trailing white space keeps a first character that is no white space.
proof fn lemma_trim_end_front(s: Seq<char>)
    requires
        s.len() > 0,
        !is_white_space(s[0]),
    ensures
        trim_end_ws(s).len() > 0,
        trim_end_ws(s)[0] == s[0],
    decreases s.len(),
{
    if is_white_space(s.last()) {
        lemma_trim_end_front(s.drop_last());
    }
}

/// What removing trailing white space leaves ends with no white space.
proof fn lemma_trim_end_back(s: Seq<char>)
    ensures
        trim_end_ws(s).len() > 0 ==> !is_white_space(trim_end_ws(s).last()),
    decreases s.len(),
{
    if s.len() > 0 && is_white_space(s.last()) {
        lemma_trim_end_back(s.drop_last());
    }
}

/// What removing leading white space leaves starts with no white space.
proof fn lemma_trim_start_front(s: Seq<char>)
    ensures
        trim_start_ws(s).len() > 0 ==> !is_white_space(trim_start_ws(s)[0]),
    decreases s.len(),
{
    if s.len() > 0 && is_white_space(s[0]) {
        lemma_trim_start_front(s.drop_first());
    }
}

/// Trimming twice is trimming once.
pub proof fn lemma_trim_idempotent(s: Seq<char>)
    ensures
        trim_ws(trim_ws(s)) == trim_ws(s),
{
    let t = trim_ws(s);
    lemma_trim_start_front(s);
    let u = trim_start_ws(s);
    if u.len() > 0 {
        lemma_trim_end_front(u);
    }
    lemma_trim_end_back(u);
    assert(trim_start_ws(t) == t);
    assert(trim_end_ws(t) == t);
}

/// Every character of `s` is white space.
pub open spec fn all_white_space(s: Seq<char>) -> bool {
    forall|i: int| 0 <= i < s.len() ==> is_white_space(#[trigger] s[i])
}

/// White space put in front goes with the leading white space.
proof fn lemma_trim_start_padded(pre: Seq<char>, s: Seq<char>)
    requires
        all_white_space(pre),
    ensures
        trim_start_ws(pre + s) == trim_start_ws(s),
    decreases pre.len(),
{
    if pre.len() > 0 {
        assert((pre + s)[0] == pre[0]);
        assert((pre + s).drop_first() =~= pre.drop_first() + s);
        lemma_trim_start_padded(pre.drop_first(), s);
    } else {
        assert(pre + s =~= s);
    }
}

/// White space put behind goes with the trailing white space.
proof fn lemma_trim_end_padded(s: Seq<char>, post: Seq<char>)
    requires
        all_white_space(post),
    ensures
        trim_end_ws(s + post) == trim_end_ws(s),
    decreases post.len(),
{
    if post.len() > 0 {
        assert((s + post).last() == post.last());
        assert((s + post).drop_last() =~= s + post.drop_last());
        lemma_trim_end_padded(s, post.drop_last());
    } else {
        assert(s + post =~= s);
    }
}

/// Removing leading white space from `s` followed by white space: the trailing white space
/// stays behind what is left, or everything goes where `s` is all white space.
proof fn lemma_trim_start_then_padding(s: Seq<char>, post: Seq<char>)
    requires
        all_white_space(post),
    ensures
        trim_start_ws(s + post) == (if trim_start_ws(s).len() > 0 { trim_start_ws(s) + post } else { Seq::<char>::empty() }),
    decreases s.len() + post.len(),
{
    if s.len() == 0 {
        assert(s + post =~= post);
        if post.len() > 0 {
            assert(post[0] == post[0]);
            lemma_trim_start_then_padding(s, post.drop_first());
            assert(s + post.drop_first() =~= post.drop_first());
        }
    } else if is_white_space(s[0]) {
        assert((s + post)[0] == s[0]);
        assert((s + post).drop_first() =~= s.drop_first() + post);
        lemma_trim_start_then_padding(s.drop_first(), post);
    } else {
        assert((s + post)[0] == s[0]);
    }
}

/// White space added around a text changes nothing of it once trimmed.
pub proof fn lemma_trim_padded(pre: Seq<char>, s: Seq<char>, post: Seq<char>)
    requires
        all_white_space(pre),
        all_white_space(post),
    ensures
        trim_ws(pre + s + post) == trim_ws(s),
{
    assert(pre + s + post =~= pre + (s + post));
    lemma_trim_start_padded(pre, s + post);
    lemma_trim_start_then_padding(s, post);
    if trim_start_ws(s).len() > 0 {
        lemma_trim_end_padded(trim_start_ws(s), post);
    }
}

} // verus!
