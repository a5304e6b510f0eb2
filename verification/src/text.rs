//! Character-level helpers for the library's string handling.
use vstd::prelude::*;

verus! {

/// Appends one character to a string (std `String::push`).
#[verifier::external_body]
pub(crate) fn push_char(s: &mut String, c: char)
    ensures
        final(s)@ == old(s)@.push(c),
{
    s.push(c);
}

/// The characters of `s`, in order.
pub fn chars_of(s: &str) -> (v: Vec<char>)
    ensures
        v@ == s@,
{
    let mut v: Vec<char> = Vec::new();
    for c in it: s.chars()
        invariant
            v@ == it.seq().take(it.index() as int),
            it.seq() == s@,
    {
        v.push(c);
    }
    v
}

/// The string holding the characters of `v`.
pub fn string_from_chars(v: &[char]) -> (s: String)
    ensures
        s@ == v@,
{
    let mut s = String::new();
    let mut i: usize = 0;
    while i < v.len()
        invariant
            i <= v@.len(),
            s@ == v@.take(i as int),
        decreases v@.len() - i,
    {
        push_char(&mut s, v[i]);
        i = i + 1;
        assert(s@ =~= v@.take(i as int));
    }
    assert(v@.take(v@.len() as int) =~= v@);
    s
}

/// Whether two strings hold the same characters.
pub fn same_text(a: &str, b: &str) -> (eq: bool)
    ensures
        eq == (a@ == b@),
{
    let x = chars_of(a);
    let y = chars_of(b);
    if x.len() != y.len() {
        return false;
    }
    let mut i: usize = 0;
    while i < x.len()
        invariant
            i <= x@.len() == y@.len(),
            x@ == a@,
            y@ == b@,
            x@.take(i as int) == y@.take(i as int),
        decreases x@.len() - i,
    {
        if x[i] != y[i] {
            assert(x@[i as int] != y@[i as int]);
            return false;
        }
        i = i + 1;
        assert(x@.take(i as int) =~= y@.take(i as int));
    }
    assert(x@ =~= x@.take(i as int));
    assert(y@ =~= y@.take(i as int));
    true
}

/// The concatenation of `a` and `b`.
pub fn concat(a: &str, b: &str) -> (s: String)
    ensures
        s@ == a@ + b@,
{
    let mut s = String::from_str(a);
    s.append(b);
    s
}

/// Whether `c` is a white-space character (Unicode `White_Space`).
pub open spec fn is_white_space(c: char) -> bool {
    ||| '\t' <= c <= '\r'
    ||| c == ' '
    ||| c == '\u{85}'
    ||| c == '\u{a0}'
    ||| c == '\u{1680}'
    ||| '\u{2000}' <= c <= '\u{200a}'
    ||| c == '\u{2028}'
    ||| c == '\u{2029}'
    ||| c == '\u{202f}'
    ||| c == '\u{205f}'
    ||| c == '\u{3000}'
}

fn white_space(c: char) -> (b: bool)
    ensures
        b == is_white_space(c),
{
    ('\t' <= c && c <= '\r') || c == ' ' || c == '\u{85}' || c == '\u{a0}' || c == '\u{1680}'
        || ('\u{2000}' <= c && c <= '\u{200a}') || c == '\u{2028}' || c == '\u{2029}' || c
        == '\u{202f}' || c == '\u{205f}' || c == '\u{3000}'
}

/// Number of leading white-space characters of `s`.
pub open spec fn leading_space(s: Seq<char>) -> int
    decreases s.len(),
{
    if s.len() > 0 && is_white_space(s[0]) {
        1 + leading_space(s.drop_first())
    } else {
        0
    }
}

/// Whether `c` is removed at the end of a line by a trim: white space when
/// `space` holds, otherwise the carriage return `'\r'`.
pub open spec fn trimmed_char(c: char, space: bool) -> bool {
    if space { is_white_space(c) } else { c == '\r' }
}

/// Number of trailing characters of `s` that a trim removes.
pub open spec fn trailing_count(s: Seq<char>, space: bool) -> int
    decreases s.len(),
{
    if s.len() > 0 && trimmed_char(s.last(), space) {
        1 + trailing_count(s.drop_last(), space)
    } else {
        0
    }
}

/// `s` without its leading and trailing white space (as `str::trim`).
pub open spec fn trim(s: Seq<char>) -> Seq<char> {
    let rest = s.skip(leading_space(s));
    rest.take(rest.len() - trailing_count(rest, true))
}

/// `s` without its trailing `'\r'` characters (as `str::trim_end_matches('\r')`).
pub open spec fn trim_trailing_cr(s: Seq<char>) -> Seq<char> {
    s.take(s.len() - trailing_count(s, false))
}

proof fn lemma_leading_space(s: Seq<char>, i: int)
    requires
        0 <= i <= s.len(),
        forall|j: int| 0 <= j < i ==> is_white_space(#[trigger] s[j]),
    ensures
        leading_space(s) == i + leading_space(s.skip(i)),
    decreases i,
{
    if i > 0 {
        let t = s.drop_first();
        assert forall|j: int| 0 <= j < i - 1 implies is_white_space(#[trigger] t[j]) by {
            assert(t[j] == s[j + 1]);
        }
        lemma_leading_space(t, i - 1);
        assert(t.skip(i - 1) =~= s.skip(i));
        assert(is_white_space(s[0]));
    } else {
        assert(s.skip(0) =~= s);
    }
}

proof fn lemma_trailing_count(s: Seq<char>, space: bool, k: int)
    requires
        0 <= k <= s.len(),
        forall|j: int| s.len() - k <= j < s.len() ==> trimmed_char(#[trigger] s[j], space),
    ensures
        trailing_count(s, space) == k + trailing_count(s.take(s.len() - k), space),
    decreases k,
{
    if k > 0 {
        let t = s.drop_last();
        assert forall|j: int| t.len() - (k - 1) <= j < t.len() implies trimmed_char(
            #[trigger] t[j],
            space,
        ) by {
            assert(t[j] == s[j]);
        }
        lemma_trailing_count(t, space, k - 1);
        assert(t.take(t.len() - (k - 1)) =~= s.take(s.len() - k));
        assert(trimmed_char(s.last(), space));
    } else {
        assert(s.take(s.len() as int) =~= s);
    }
}

/// Length of the run at the end of `v[lo..]` that a trim removes.
fn trailing_run(v: &Vec<char>, lo: usize, space: bool) -> (k: usize)
    requires
        lo <= v@.len(),
    ensures
        k <= v@.len() - lo,
        trailing_count(v@.skip(lo as int), space) == k,
{
    let ghost s = v@.skip(lo as int);
    let mut k: usize = 0;
    while k < v.len() - lo
        invariant
            lo <= v@.len(),
            s == v@.skip(lo as int),
            k <= s.len(),
            forall|j: int| s.len() - k <= j < s.len() ==> trimmed_char(#[trigger] s[j], space),
        ensures
            k <= s.len(),
            forall|j: int| s.len() - k <= j < s.len() ==> trimmed_char(#[trigger] s[j], space),
            k == s.len() || !trimmed_char(s[s.len() - 1 - k], space),
        decreases v@.len() - lo - k,
    {
        let c = v[v.len() - 1 - k];
        let hit = if space { white_space(c) } else { c == '\r' };
        assert(c == s[s.len() - 1 - k]);
        if !hit {
            break;
        }
        k = k + 1;
    }
    proof {
        lemma_trailing_count(s, space, k as int);
        let t = s.take(s.len() - k);
        if t.len() > 0 {
            assert(t.last() == s[s.len() - k - 1]);
        }
    }
    k
}

/// `s` without leading and trailing white space.
pub fn trim_text(s: &str) -> (t: String)
    ensures
        t@ == trim(s@),
{
    let v = chars_of(s);
    let mut lead: usize = 0;
    while lead < v.len() && white_space(v[lead])
        invariant
            lead <= v@.len(),
            forall|j: int| 0 <= j < lead ==> is_white_space(#[trigger] v@[j]),
        decreases v@.len() - lead,
    {
        lead = lead + 1;
    }
    proof {
        lemma_leading_space(v@, lead as int);
        if lead < v@.len() {
            assert(v@.skip(lead as int)[0] == v@[lead as int]);
        }
    }
    let k = trailing_run(&v, lead, true);
    let end = v.len() - k;
    let t = string_from_chars(&v.as_slice()[lead..end]);
    assert(v@.subrange(lead as int, end as int) =~= trim(s@));
    t
}

/// Lexicographic order of character sequences, by code point: the order
/// `String`'s `Ord` gives (UTF-8 preserves the order of code points).
pub open spec fn text_less(a: Seq<char>, b: Seq<char>) -> bool
    decreases a.len(),
{
    if a.len() == 0 {
        b.len() > 0
    } else if b.len() == 0 {
        false
    } else if a[0] != b[0] {
        (a[0] as int) < (b[0] as int)
    } else {
        text_less(a.drop_first(), b.drop_first())
    }
}

proof fn lemma_text_less_irreflexive(a: Seq<char>)
    ensures
        !text_less(a, a),
    decreases a.len(),
{
    if a.len() > 0 {
        lemma_text_less_irreflexive(a.drop_first());
    }
}

proof fn lemma_text_less_total(a: Seq<char>, b: Seq<char>)
    ensures
        a != b ==> text_less(a, b) || text_less(b, a),
        text_less(a, b) ==> !text_less(b, a),
    decreases a.len(),
{
    if a.len() > 0 && b.len() > 0 {
        lemma_text_less_total(a.drop_first(), b.drop_first());
        if a[0] == b[0] && a.drop_first() == b.drop_first() {
            assert(a =~= seq![a[0]] + a.drop_first());
            assert(b =~= seq![b[0]] + b.drop_first());
        }
    } else if a.len() == 0 && b.len() == 0 {
        assert(a =~= b);
    }
}

proof fn lemma_text_less_transitive(a: Seq<char>, b: Seq<char>, c: Seq<char>)
    requires
        text_less(a, b),
        text_less(b, c),
    ensures
        text_less(a, c),
    decreases a.len(),
{
    if a.len() > 0 && b.len() > 0 && c.len() > 0 && a[0] == b[0] && b[0] == c[0] {
        lemma_text_less_transitive(a.drop_first(), b.drop_first(), c.drop_first());
    }
}

/// `text_less` is a strict total order.
pub proof fn lemma_text_less_order(a: Seq<char>, b: Seq<char>, c: Seq<char>)
    ensures
        !text_less(a, a),
        a != b ==> text_less(a, b) || text_less(b, a),
        text_less(a, b) ==> !text_less(b, a),
        text_less(a, b) && text_less(b, c) ==> text_less(a, c),
{
    lemma_text_less_irreflexive(a);
    lemma_text_less_total(a, b);
    if text_less(a, b) && text_less(b, c) {
        lemma_text_less_transitive(a, b, c);
    }
}

/// Whether `a` comes strictly before `b` in `text_less` order.
pub fn text_less_than(a: &Vec<char>, b: &Vec<char>) -> (less: bool)
    ensures
        less == text_less(a@, b@),
{
    let mut i: usize = 0;
    assert(a@.skip(0) =~= a@ && b@.skip(0) =~= b@);
    while i < a.len() && i < b.len() && a[i] == b[i]
        invariant
            i <= a@.len(),
            i <= b@.len(),
            text_less(a@, b@) == text_less(a@.skip(i as int), b@.skip(i as int)),
        decreases a@.len() - i,
    {
        proof {
            let x = a@.skip(i as int);
            let y = b@.skip(i as int);
            assert(x.drop_first() =~= a@.skip(i + 1));
            assert(y.drop_first() =~= b@.skip(i + 1));
        }
        i = i + 1;
    }
    proof {
        let x = a@.skip(i as int);
        let y = b@.skip(i as int);
        if i < a@.len() && i < b@.len() {
            assert(x[0] == a@[i as int] && y[0] == b@[i as int]);
        }
    }
    if i < a.len() && i < b.len() {
        a[i] < b[i]
    } else {
        i == a.len() && i < b.len()
    }
}

/// Length of `v[start..end]` once its trailing `'\r'`s are removed.
pub fn trim_cr_len(v: &Vec<char>, start: usize, end: usize) -> (len: usize)
    requires
        start <= end <= v@.len(),
    ensures
        len <= end - start,
        v@.subrange(start as int, start + len) == trim_trailing_cr(
            v@.subrange(start as int, end as int),
        ),
{
    let ghost s = v@.subrange(start as int, end as int);
    let mut k: usize = 0;
    while k < end - start
        invariant
            start <= end <= v@.len(),
            s == v@.subrange(start as int, end as int),
            k <= s.len(),
            forall|j: int| s.len() - k <= j < s.len() ==> trimmed_char(#[trigger] s[j], false),
        ensures
            k <= s.len(),
            forall|j: int| s.len() - k <= j < s.len() ==> trimmed_char(#[trigger] s[j], false),
            k == s.len() || !trimmed_char(s[s.len() - 1 - k], false),
        decreases end - start - k,
    {
        if v[end - 1 - k] != '\r' {
            assert(s[s.len() - 1 - k] == v@[end - 1 - k]);
            break;
        }
        assert(s[s.len() - 1 - k] == v@[end - 1 - k]);
        k = k + 1;
    }
    proof {
        lemma_trailing_count(s, false, k as int);
        let t = s.take(s.len() - k);
        if t.len() > 0 {
            assert(t.last() == s[s.len() - k - 1]);
        }
        assert(v@.subrange(start as int, end - k) =~= s.take(s.len() - k));
    }
    end - start - k
}

/// What is left after removing the trailing run a trim removes does not end
/// in a character that the trim removes.
pub proof fn lemma_trailing_run_maximal(s: Seq<char>, space: bool)
    ensures
        0 <= trailing_count(s, space) <= s.len(),
        s.len() - trailing_count(s, space) > 0 ==> !trimmed_char(
            s[s.len() - trailing_count(s, space) - 1],
            space,
        ),
    decreases s.len(),
{
    if s.len() > 0 && trimmed_char(s.last(), space) {
        let t = s.drop_last();
        lemma_trailing_run_maximal(t, space);
        if t.len() - trailing_count(t, space) > 0 {
            assert(s[s.len() - trailing_count(s, space) - 1] == t[t.len() - trailing_count(t, space) - 1]);
        }
    }
}

/// A trimmed text that is not empty ends in a character that is not white space.
pub proof fn lemma_trim_last(s: Seq<char>)
    ensures
        trim(s).len() > 0 ==> !is_white_space(trim(s).last()),
{
    let rest = s.skip(leading_space(s));
    lemma_leading_space_bound(s);
    lemma_trailing_run_maximal(rest, true);
}

proof fn lemma_leading_space_bound(s: Seq<char>)
    ensures
        0 <= leading_space(s) <= s.len(),
    decreases s.len(),
{
    if s.len() > 0 && is_white_space(s[0]) {
        lemma_leading_space_bound(s.drop_first());
    }
}

/// Comparing texts that begin with parts of equal length: the first parts
/// decide unless they are equal, and then the rests decide.
pub proof fn lemma_text_less_concat(a1: Seq<char>, b1: Seq<char>, a2: Seq<char>, b2: Seq<char>)
    requires
        a1.len() == a2.len(),
    ensures
        a1 != a2 ==> (text_less(a1 + b1, a2 + b2) == text_less(a1, a2)),
        a1 == a2 ==> (text_less(a1 + b1, a2 + b2) == text_less(b1, b2)),
    decreases a1.len(),
{
    if a1.len() == 0 {
        assert(a1 + b1 =~= b1);
        assert(a2 + b2 =~= b2);
        assert(a1 =~= a2);
    } else {
        let x = a1 + b1;
        let y = a2 + b2;
        assert(x[0] == a1[0] && y[0] == a2[0]);
        assert(x.drop_first() =~= a1.drop_first() + b1);
        assert(y.drop_first() =~= a2.drop_first() + b2);
        lemma_text_less_concat(a1.drop_first(), b1, a2.drop_first(), b2);
        if a1[0] == a2[0] && a1.drop_first() == a2.drop_first() {
            assert(a1 =~= seq![a1[0]] + a1.drop_first());
            assert(a2 =~= seq![a2[0]] + a2.drop_first());
        }
    }
}

} // verus!
