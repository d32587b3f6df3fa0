//! Anchor slugs: the link target that matches a heading's text.
use vstd::prelude::*;

verus! {

/// What `str::to_lowercase` makes of a text.
pub uninterp spec fn lower_of(s: Seq<char>) -> Seq<char>;

/// ASCII whitespace: space, tab, line feed, form feed, carriage return.
pub open spec fn is_ascii_ws(c: char) -> bool {
    c == ' ' || c == '\t' || c == '\n' || c == '\x0C' || c == '\r'
}

pub open spec fn is_ascii_upper(c: char) -> bool {
    'A' <= c && c <= 'Z'
}

pub open spec fn is_ascii_lower_or_digit(c: char) -> bool {
    ('a' <= c && c <= 'z') || ('0' <= c && c <= '9')
}

pub open spec fn is_ascii_alnum(c: char) -> bool {
    is_ascii_upper(c) || is_ascii_lower_or_digit(c)
}

/// What one character becomes in a slug.
pub open spec fn slug_char(c: char) -> Seq<char> {
    if is_ascii_ws(c) {
        seq!['-']
    } else if is_ascii_alnum(c) {
        seq![c]
    } else {
        Seq::empty()
    }
}

/// Whitespace turned into `-`, ASCII letters and digits kept, the rest dropped.
pub open spec fn slug(s: Seq<char>) -> Seq<char>
    decreases s.len(),
{
    if s.len() == 0 {
        Seq::empty()
    } else {
        slug(s.drop_last()) + slug_char(s.last())
    }
}

/// The anchor of a heading text.
pub open spec fn anchor_spec(s: Seq<char>) -> Seq<char> {
    seq!['#'] + slug(lower_of(s))
}

/// Relies on `str::to_lowercase`: the lower-case form, which depends on the
/// characters alone.
#[verifier::external_body]
pub(crate) fn lowercase(s: &str) -> (r: String)
    ensures
        r@ == lower_of(s@),
{
    s.to_lowercase()
}

/// Relies on `String::push`: appends one character.
#[verifier::external_body]
pub(crate) fn push_char(s: &mut String, c: char)
    ensures
        final(s)@ == old(s)@.push(c),
{
    s.push(c)
}

fn ascii_ws(c: char) -> (r: bool)
    ensures
        r == is_ascii_ws(c),
{
    c == ' ' || c == '\t' || c == '\n' || c == '\x0C' || c == '\r'
}

fn ascii_alnum(c: char) -> (r: bool)
    ensures
        r == is_ascii_alnum(c),
{
    ('A' <= c && c <= 'Z') || ('a' <= c && c <= 'z') || ('0' <= c && c <= '9')
}

/// The anchor of a text that is already lower-cased: `#` followed by its slug.
pub fn anchor_of_lowered(lowered: &str) -> (r: String)
    ensures
        r@ == seq!['#'] + slug(lowered@),
{
    let mut out = String::new();
    push_char(&mut out, '#');
    let n = lowered.unicode_len();
    let mut i: usize = 0;
    proof {
        assert(lowered@.subrange(0, 0) =~= Seq::<char>::empty());
        assert(out@ =~= seq!['#'] + slug(lowered@.subrange(0, 0)));
    }
    while i < n
        invariant
            n == lowered@.len(),
            0 <= i <= n,
            out@ == seq!['#'] + slug(lowered@.subrange(0, i as int)),
        decreases n - i,
    {
        let c = lowered.get_char(i);
        let ghost before = out@;
        if ascii_ws(c) {
            push_char(&mut out, '-');
        } else if ascii_alnum(c) {
            push_char(&mut out, c);
        }
        proof {
            let s = lowered@.subrange(0, i as int + 1);
            assert(s.drop_last() =~= lowered@.subrange(0, i as int));
            assert(s.last() == c);
            assert(out@ =~= before + slug_char(c));
        }
        i = i + 1;
    }
    proof {
        assert(lowered@.subrange(0, n as int) =~= lowered@);
    }
    out
}

/// The anchor of a heading text: `#`, then the lower-cased text with ASCII
/// whitespace turned into `-` and everything but ASCII letters, digits and
/// `-` dropped.
pub fn to_anchor(s: &str) -> (r: String)
    ensures
        r@ == anchor_spec(s@),
{
    let lowered = lowercase(s);
    anchor_of_lowered(lowered.as_str())
}

/// Every character of a slug is an ASCII letter, a digit or `-`; where the
/// text holds no ASCII capital, every one is a lower-case letter, a digit or `-`.
pub proof fn lemma_slug_chars(s: Seq<char>)
    ensures
        forall|i: int| 0 <= i < slug(s).len() ==> (is_ascii_alnum(#[trigger] slug(s)[i]) || slug(s)[i] == '-'),
        (forall|j: int| 0 <= j < s.len() ==> !is_ascii_upper(#[trigger] s[j])) ==> forall|i: int|
            0 <= i < slug(s).len() ==> (is_ascii_lower_or_digit(#[trigger] slug(s)[i]) || slug(s)[i] == '-'),
    decreases s.len(),
{
    if s.len() > 0 {
        let t = s.drop_last();
        lemma_slug_chars(t);
        let a = slug(t);
        let b = slug_char(s.last());
        assert(slug(s) == a + b);
        assert forall|i: int| 0 <= i < slug(s).len() implies (is_ascii_alnum(#[trigger] slug(s)[i]) || slug(s)[i] == '-') by {
            if i < a.len() {
                assert(slug(s)[i] == a[i]);
            } else {
                assert(slug(s)[i] == b[i - a.len()]);
            }
        }
        if forall|j: int| 0 <= j < s.len() ==> !is_ascii_upper(#[trigger] s[j]) {
            assert forall|j: int| 0 <= j < t.len() implies !is_ascii_upper(#[trigger] t[j]) by {
                assert(t[j] == s[j]);
            }
            assert(!is_ascii_upper(s[s.len() - 1]));
            assert forall|i: int| 0 <= i < slug(s).len() implies (is_ascii_lower_or_digit(#[trigger] slug(s)[i]) || slug(s)[i] == '-') by {
                if i < a.len() {
                    assert(slug(s)[i] == a[i]);
                } else {
                    assert(slug(s)[i] == b[i - a.len()]);
                }
            }
        }
    }
}

/// The anchor depends on the heading text alone, starts with `#`, and goes
/// on with ASCII letters, digits and `-` only; lower-case letters only where
/// lower-casing left no ASCII capital.
pub proof fn lemma_anchor_shape(a: Seq<char>, b: Seq<char>)
    ensures
        a == b ==> anchor_spec(a) == anchor_spec(b),
        anchor_spec(a).len() >= 1,
        anchor_spec(a)[0] == '#',
        forall|i: int| 1 <= i < anchor_spec(a).len() ==> (is_ascii_alnum(#[trigger] anchor_spec(a)[i]) || anchor_spec(a)[i] == '-'),
        (forall|j: int| 0 <= j < lower_of(a).len() ==> !is_ascii_upper(#[trigger] lower_of(a)[j])) ==> forall|i: int|
            1 <= i < anchor_spec(a).len() ==> (is_ascii_lower_or_digit(#[trigger] anchor_spec(a)[i]) || anchor_spec(a)[i] == '-'),
{
    let sl = slug(lower_of(a));
    lemma_slug_chars(lower_of(a));
    assert forall|i: int| 1 <= i < anchor_spec(a).len() implies anchor_spec(a)[i] == sl[i - 1] by {}
}

} // verus!
