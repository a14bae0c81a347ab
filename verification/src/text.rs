//! Text as sequences of characters: the string operations that the other
//! modules share, each stated over the sequence of characters it works on.

use crate::order::views;
use vstd::prelude::*;

verus! {

/// `String::push`: appends one character at the end.
pub assume_specification[ String::push ](s: &mut String, c: char)
    ensures
        final(s)@ == old(s)@.push(c),
;

/// What an optional string holds.
pub open spec fn opt_view(o: Option<String>) -> Option<Seq<char>> {
    match o {
        Some(s) => Some(s@),
        None => None,
    }
}

/// A copy of an optional string.
pub fn opt_copy(o: &Option<String>) -> (r: Option<String>)
    ensures
        r == *o,
{
    match o {
        Some(s) => Some(s.clone()),
        None => None,
    }
}

/// The characters of a string.
pub fn chars_of(s: &str) -> (r: Vec<char>)
    ensures
        r@ == s@,
{
    let mut v: Vec<char> = Vec::new();
    for c in it: s.chars()
        invariant
            v@ == it.seq().take(it.index() as int),
            it.seq() == s@,
    {
        v.push(c);
    }
    v
}

/// The string made of the characters `v[lo..hi]`.
pub fn string_of(v: &Vec<char>, lo: usize, hi: usize) -> (r: String)
    requires
        lo <= hi <= v@.len(),
    ensures
        r@ == v@.subrange(lo as int, hi as int),
{
    let mut out = String::new();
    let mut i: usize = lo;
    while i < hi
        invariant
            lo <= i <= hi <= v@.len(),
            out@ == v@.subrange(lo as int, i as int),
        decreases hi - i,
    {
        out.push(v[i]);
        i = i + 1;
        assert(v@.subrange(lo as int, i as int) =~= v@.subrange(lo as int, i - 1).push(v@[i - 1]));
    }
    out
}

/// Whether two strings hold the same characters.
pub fn same(a: &str, b: &str) -> (r: bool)
    ensures
        r == (a@ == b@),
{
    let x = chars_of(a);
    let y = chars_of(b);
    if x.len() != y.len() {
        return false;
    }
    let mut i: usize = 0;
    while i < x.len()
        invariant
            i <= x@.len(),
            x@.len() == y@.len(),
            x@.take(i as int) == y@.take(i as int),
            x@ == a@,
            y@ == b@,
        decreases x@.len() - i,
    {
        if x[i] != y[i] {
            return false;
        }
        i = i + 1;
        assert(x@.take(i as int) =~= x@.take(i - 1).push(x@[i - 1]));
        assert(y@.take(i as int) =~= y@.take(i - 1).push(y@[i - 1]));
    }
    assert(x@.take(i as int) =~= x@);
    assert(y@.take(i as int) =~= y@);
    true
}

/// An owned copy of a string.
pub fn copy(s: &str) -> (r: String)
    ensures
        r@ == s@,
{
    s.to_owned()
}

/// The two strings, one after the other.
pub fn join(a: &str, b: &str) -> (r: String)
    ensures
        r@ == a@ + b@,
{
    let mut out = a.to_owned();
    out.append(b);
    out
}

/// The three strings, one after the other.
pub fn join3(a: &str, b: &str, c: &str) -> (r: String)
    ensures
        r@ == a@ + b@ + c@,
{
    let mut out = a.to_owned();
    out.append(b);
    out.append(c);
    out
}

/// The first `n` characters of a string, or all where it is shorter.
pub fn head(s: &str, n: usize) -> (r: String)
    ensures
        r@ == s@.take(if s@.len() <= n {
            s@.len() as int
        } else {
            n as int
        }),
{
    let x = chars_of(s);
    if x.len() <= n {
        string_of(&x, 0, x.len())
    } else {
        string_of(&x, 0, n)
    }
}

/// The texts one after the other, with a separator between each two.
pub open spec fn joined(parts: Seq<Seq<char>>, sep: Seq<char>) -> Seq<char>
    decreases parts.len(),
{
    if parts.len() == 0 {
        Seq::empty()
    } else if parts.len() == 1 {
        parts[0]
    } else {
        joined(parts.drop_last(), sep) + sep + parts.last()
    }
}

/// `join` on a list of strings.
pub fn join_all(parts: &Vec<String>, sep: &str) -> (r: String)
    ensures
        r@ == joined(views(parts@), sep@),
{
    let ghost vs = views(parts@);
    let mut out = String::new();
    let mut i: usize = 0;
    assert(vs.take(0) =~= Seq::<Seq<char>>::empty());
    while i < parts.len()
        invariant
            i <= parts@.len(),
            vs == views(parts@),
            out@ == joined(vs.take(i as int), sep@),
        decreases parts@.len() - i,
    {
        assert(vs.take(i + 1).drop_last() =~= vs.take(i as int));
        if i > 0 {
            out.append(sep);
        }
        out.append(&parts[i]);
        proof {
            if i == 0 {
                assert(out@ =~= parts@[0]@);
            }
        }
        i = i + 1;
    }
    assert(vs.take(i as int) =~= vs);
    out
}

/// A letter in upper case, where it is an ASCII one.
pub open spec fn ascii_upper(c: char) -> char {
    if 'a' <= c <= 'z' {
        (c as u8 - 32) as char
    } else {
        c
    }
}

/// The text with its first letter in upper case, where it is an ASCII one.
pub open spec fn capitalized(s: Seq<char>) -> Seq<char> {
    if s.len() == 0 {
        s
    } else {
        seq![ascii_upper(s[0])] + s.skip(1)
    }
}

/// The text with its first letter in upper case, where it is an ASCII one.
pub fn capitalize(s: &str) -> (r: String)
    ensures
        r@ == capitalized(s@),
{
    let x = chars_of(s);
    let mut out = String::new();
    if x.len() == 0 {
        return out;
    }
    let c = x[0];
    if 'a' <= c && c <= 'z' {
        out.push((c as u8 - 32) as char);
    } else {
        out.push(c);
    }
    out.append(&string_of(&x, 1, x.len()));
    assert(out@ =~= seq![ascii_upper(s@[0])] + s@.skip(1));
    out
}

/// Whether `p` stands in `s` at position `i`.
pub open spec fn occurs_at(s: Seq<char>, p: Seq<char>, i: int) -> bool {
    0 <= i && i + p.len() <= s.len() && s.subrange(i, i + p.len()) == p
}

/// Whether `p` stands somewhere in `s`.
pub open spec fn occurs(s: Seq<char>, p: Seq<char>) -> bool {
    exists|i: int| occurs_at(s, p, i)
}

/// Whether the characters of `p` stand in `s` at position `i`.
fn at(s: &Vec<char>, p: &Vec<char>, i: usize) -> (r: bool)
    ensures
        r == occurs_at(s@, p@, i as int),
{
    if p.len() > s.len() || i > s.len() - p.len() {
        return false;
    }
    let n: usize = s.len();
    let mut k: usize = 0;
    while k < p.len()
        invariant
            k <= p@.len(),
            i + p@.len() <= n == s@.len(),
            forall|j: int| 0 <= j < k ==> s@[i + j] == p@[j],
        decreases p@.len() - k,
    {
        if s[i + k] != p[k] {
            assert(s@.subrange(i as int, i + p@.len())[k as int] != p@[k as int]);
            return false;
        }
        k = k + 1;
    }
    assert(s@.subrange(i as int, i + p@.len()) =~= p@);
    true
}

/// `str::contains` for a string pattern.
pub fn contains(s: &str, p: &str) -> (r: bool)
    ensures
        r == occurs(s@, p@),
{
    let x = chars_of(s);
    let y = chars_of(p);
    if y.len() > x.len() {
        return false;
    }
    let last: usize = x.len() - y.len();
    let mut i: usize = 0;
    while i < last
        invariant
            i <= last == s@.len() - p@.len(),
            x@ == s@,
            y@ == p@,
            forall|j: int| 0 <= j < i ==> !occurs_at(s@, p@, j),
        decreases last - i,
    {
        if at(&x, &y, i) {
            return true;
        }
        i = i + 1;
    }
    at(&x, &y, last)
}

/// `str::contains` for a character.
pub fn contains_char(s: &str, c: char) -> (r: bool)
    ensures
        r == s@.contains(c),
{
    let x = chars_of(s);
    let mut i: usize = 0;
    while i < x.len()
        invariant
            i <= x@.len(),
            x@ == s@,
            forall|k: int| 0 <= k < i ==> x@[k] != c,
        decreases x@.len() - i,
    {
        if x[i] == c {
            return true;
        }
        i = i + 1;
    }
    false
}

/// `str::starts_with` for a string pattern.
pub fn starts_with(s: &str, p: &str) -> (r: bool)
    ensures
        r == p@.is_prefix_of(s@),
{
    at(&chars_of(s), &chars_of(p), 0)
}

/// `str::strip_prefix` for a string pattern.
pub fn strip_prefix(s: &str, p: &str) -> (r: Option<String>)
    ensures
        r is Some <==> p@.is_prefix_of(s@),
        r matches Some(rest) ==> rest@ == s@.skip(p@.len() as int),
{
    let x = chars_of(s);
    let y = chars_of(p);
    if at(&x, &y, 0) {
        Some(string_of(&x, y.len(), x.len()))
    } else {
        None
    }
}

/// `str::ends_with` for a string pattern.
pub fn ends_with(s: &str, p: &str) -> (r: bool)
    ensures
        r == p@.is_suffix_of(s@),
{
    let x = chars_of(s);
    let y = chars_of(p);
    if y.len() > x.len() {
        return false;
    }
    at(&x, &y, x.len() - y.len())
}

/// Characters with the Unicode `White_Space` property.
pub open spec fn is_space(c: char) -> bool {
    ||| '\u{9}' <= c <= '\u{d}'
    ||| c == '\u{20}'
    ||| c == '\u{85}'
    ||| c == '\u{a0}'
    ||| c == '\u{1680}'
    ||| '\u{2000}' <= c <= '\u{200a}'
    ||| c == '\u{2028}'
    ||| c == '\u{2029}'
    ||| c == '\u{202f}'
    ||| c == '\u{205f}'
    ||| c == '\u{3000}'
}

/// `char::is_whitespace`.
pub fn space(c: char) -> (r: bool)
    ensures
        r == is_space(c),
{
    ('\u{9}' <= c && c <= '\u{d}') || c == '\u{20}' || c == '\u{85}' || c == '\u{a0}' || c
        == '\u{1680}' || ('\u{2000}' <= c && c <= '\u{200a}') || c == '\u{2028}' || c
        == '\u{2029}' || c == '\u{202f}' || c == '\u{205f}' || c == '\u{3000}'
}

/// Characters of the Unicode general category `Cc`.
pub open spec fn is_control(c: char) -> bool {
    c <= '\u{1f}' || '\u{7f}' <= c <= '\u{9f}'
}

/// `char::is_control`.
pub fn control(c: char) -> (r: bool)
    ensures
        r == is_control(c),
{
    c <= '\u{1f}' || ('\u{7f}' <= c && c <= '\u{9f}')
}

/// The text without its leading white space.
pub open spec fn trimmed_start(s: Seq<char>) -> Seq<char>
    decreases s.len(),
{
    if s.len() > 0 && is_space(s[0]) {
        trimmed_start(s.skip(1))
    } else {
        s
    }
}

/// The text without its trailing white space.
pub open spec fn trimmed_end(s: Seq<char>) -> Seq<char>
    decreases s.len(),
{
    if s.len() > 0 && is_space(s.last()) {
        trimmed_end(s.drop_last())
    } else {
        s
    }
}

/// The text without white space on either side.
pub open spec fn trimmed(s: Seq<char>) -> Seq<char> {
    trimmed_end(trimmed_start(s))
}

/// `str::trim_start`.
pub fn trim_start(s: &str) -> (r: String)
    ensures
        r@ == trimmed_start(s@),
{
    let x = chars_of(s);
    let mut lo: usize = 0;
    assert(x@.skip(0) =~= x@);
    while lo < x.len() && space(x[lo])
        invariant
            lo <= x@.len(),
            x@ == s@,
            trimmed_start(x@.skip(lo as int)) == trimmed_start(s@),
        decreases x@.len() - lo,
    {
        assert(x@.skip(lo as int).skip(1) =~= x@.skip(lo + 1));
        lo = lo + 1;
    }
    string_of(&x, lo, x.len())
}

/// `str::trim_end`.
pub fn trim_end(s: &str) -> (r: String)
    ensures
        r@ == trimmed_end(s@),
{
    let x = chars_of(s);
    let mut hi: usize = x.len();
    assert(x@.take(hi as int) =~= x@);
    while hi > 0 && space(x[hi - 1])
        invariant
            hi <= x@.len(),
            x@ == s@,
            trimmed_end(x@.take(hi as int)) == trimmed_end(s@),
        decreases hi,
    {
        assert(x@.take(hi as int).drop_last() =~= x@.take(hi - 1));
        hi = hi - 1;
    }
    string_of(&x, 0, hi)
}

/// `str::trim`.
pub fn trim(s: &str) -> (r: String)
    ensures
        r@ == trimmed(s@),
{
    trim_end(&trim_start(s))
}

/// The characters before the first white space.
pub open spec fn leading_word(s: Seq<char>) -> Seq<char>
    decreases s.len(),
{
    if s.len() == 0 || is_space(s[0]) {
        Seq::empty()
    } else {
        seq![s[0]] + leading_word(s.skip(1))
    }
}

/// The first word of a text: what stands between its leading white space and
/// the next. Empty where the text holds none.
pub open spec fn first_word(s: Seq<char>) -> Seq<char> {
    leading_word(trimmed_start(s))
}

/// What follows the first word of a text, trimmed.
pub open spec fn after_first_word(s: Seq<char>) -> Seq<char> {
    trimmed(trimmed_start(s).skip(first_word(s).len() as int))
}

/// The leading word is as long as the run of characters that are not white
/// space.
pub proof fn lemma_leading_word(s: Seq<char>, n: int)
    requires
        0 <= n <= s.len(),
        forall|i: int| 0 <= i < n ==> !is_space(#[trigger] s[i]),
        n < s.len() ==> is_space(s[n]),
    ensures
        leading_word(s) == s.take(n),
    decreases n,
{
    if n == 0 {
        assert(s.take(0) =~= Seq::<char>::empty());
    } else {
        assert forall|i: int| 0 <= i < n - 1 implies !is_space(#[trigger] s.skip(1)[i]) by {
            assert(s.skip(1)[i] == s[i + 1]);
        }
        lemma_leading_word(s.skip(1), n - 1);
        assert(seq![s[0]] + s.skip(1).take(n - 1) =~= s.take(n));
    }
}

/// The first word of a text and the trimmed text after it, where there is a
/// word.
pub fn split_word(s: &str) -> (r: Option<(String, String)>)
    ensures
        match r {
            Some((w, rest)) => w@ == first_word(s@) && w@.len() > 0 && rest@ == after_first_word(
                s@,
            ),
            None => first_word(s@).len() == 0,
        },
{
    let t = trim_start(s);
    let x = chars_of(&t);
    let mut i: usize = 0;
    while i < x.len() && !space(x[i])
        invariant
            i <= x@.len(),
            forall|k: int| 0 <= k < i ==> !is_space(#[trigger] x@[k]),
        decreases x@.len() - i,
    {
        i = i + 1;
    }
    proof {
        lemma_leading_word(x@, i as int);
    }
    if i == 0 {
        return None;
    }
    let w = string_of(&x, 0, i);
    let rest = string_of(&x, i, x.len());
    Some((w, trim(&rest)))
}

/// The text before the first white space and the text after it, where there
/// is white space.
pub open spec fn split_at_space(s: Seq<char>) -> Option<(Seq<char>, Seq<char>)> {
    let w = leading_word(s);
    if w.len() < s.len() {
        Some((w, s.skip(w.len() as int + 1)))
    } else {
        None
    }
}

/// `str::split_once` at the first white space.
pub fn split_space(s: &str) -> (r: Option<(String, String)>)
    ensures
        match r {
            Some((a, b)) => split_at_space(s@) == Some((a@, b@)),
            None => split_at_space(s@) is None,
        },
{
    let x = chars_of(s);
    let mut i: usize = 0;
    while i < x.len() && !space(x[i])
        invariant
            i <= x@.len(),
            forall|k: int| 0 <= k < i ==> !is_space(#[trigger] x@[k]),
        decreases x@.len() - i,
    {
        i = i + 1;
    }
    proof {
        lemma_leading_word(x@, i as int);
    }
    if i == x.len() {
        return None;
    }
    Some((string_of(&x, 0, i), string_of(&x, i + 1, x.len())))
}

/// What `str::to_lowercase` makes of a text.
pub uninterp spec fn lowercase(s: Seq<char>) -> Seq<char>;

/// `str::to_lowercase`: the lowercase form of the text by the rules of
/// Unicode, which the text alone decides.
#[verifier::external_body]
pub(crate) fn to_lowercase(s: &str) -> (r: String)
    ensures
        r@ == lowercase(s@),
{
    s.to_lowercase()
}

/// The text before the first `c` and the text after it, if there is a `c`.
pub open spec fn split_first(s: Seq<char>, c: char) -> Option<(Seq<char>, Seq<char>)>
    decreases s.len(),
{
    if s.len() == 0 {
        None
    } else if s[0] == c {
        Some((Seq::empty(), s.skip(1)))
    } else {
        match split_first(s.skip(1), c) {
            Some((a, b)) => Some((seq![s[0]] + a, b)),
            None => None,
        }
    }
}

/// The first `c` of `a + [c] + b` where `a` holds no `c`.
pub proof fn lemma_split_first(a: Seq<char>, c: char, b: Seq<char>)
    requires
        !a.contains(c),
    ensures
        split_first(a.push(c) + b, c) == Some((a, b)),
    decreases a.len(),
{
    let s = a.push(c) + b;
    if a.len() == 0 {
        assert(s.skip(1) =~= b);
        assert(a =~= Seq::empty());
    } else {
        assert(a.contains(a[0]));
        assert(s[0] == a[0]);
        assert forall|x: char| a.skip(1).contains(x) implies a.contains(x) by {
            let i = choose|i: int| 0 <= i < a.skip(1).len() && a.skip(1)[i] == x;
            assert(a[i + 1] == x);
        }
        lemma_split_first(a.skip(1), c, b);
        assert(s.skip(1) =~= a.skip(1).push(c) + b);
        assert(seq![a[0]] + a.skip(1) =~= a);
    }
}

/// A text without `c` does not split.
pub proof fn lemma_split_none(s: Seq<char>, c: char)
    ensures
        split_first(s, c) is None <==> !s.contains(c),
    decreases s.len(),
{
    if s.len() > 0 {
        lemma_split_none(s.skip(1), c);
        if s.skip(1).contains(c) {
            let i = choose|i: int| 0 <= i < s.skip(1).len() && s.skip(1)[i] == c;
            assert(s[i + 1] == c);
        }
        if s[0] != c && s.contains(c) {
            let i = choose|i: int| 0 <= i < s.len() && s[i] == c;
            assert(s.skip(1)[i - 1] == c);
        }
        if s[0] == c {
            assert(s.contains(c));
        }
    }
}

/// `str::split_once` for a character.
pub fn split_once(s: &str, c: char) -> (r: Option<(String, String)>)
    ensures
        match r {
            Some((a, b)) => split_first(s@, c) == Some((a@, b@)),
            None => split_first(s@, c) is None,
        },
{
    let x = chars_of(s);
    let mut i: usize = 0;
    while i < x.len()
        invariant
            i <= x@.len(),
            x@ == s@,
            !x@.take(i as int).contains(c),
        decreases x@.len() - i,
    {
        if x[i] == c {
            let a = string_of(&x, 0, i);
            let b = string_of(&x, i + 1, x.len());
            proof {
                lemma_split_first(a@, c, b@);
                assert(a@.push(c) + b@ =~= s@);
            }
            return Some((a, b));
        }
        proof {
            let t = x@.take(i + 1);
            assert forall|k: int| 0 <= k < t.len() implies t[k] != c by {
                if k < i {
                    assert(x@.take(i as int)[k] == t[k]);
                }
            }
        }
        i = i + 1;
    }
    proof {
        assert(x@.take(i as int) =~= s@);
        lemma_split_none(s@, c);
    }
    None
}

/// The text before the last `c` and the text after it, if there is a `c`.
pub open spec fn split_last(s: Seq<char>, c: char) -> Option<(Seq<char>, Seq<char>)>
    decreases s.len(),
{
    if s.len() == 0 {
        None
    } else if s.last() == c {
        Some((s.drop_last(), Seq::empty()))
    } else {
        match split_last(s.drop_last(), c) {
            Some((a, b)) => Some((a, b.push(s.last()))),
            None => None,
        }
    }
}

/// The last `c` of `a + [c] + b` where `b` holds no `c`.
pub proof fn lemma_split_last(a: Seq<char>, c: char, b: Seq<char>)
    requires
        !b.contains(c),
    ensures
        split_last(a.push(c) + b, c) == Some((a, b)),
    decreases b.len(),
{
    let s = a.push(c) + b;
    if b.len() == 0 {
        assert(s.drop_last() =~= a);
        assert(b =~= Seq::empty());
    } else {
        assert(b.contains(b.last()));
        assert(s.last() == b.last());
        assert forall|x: char| b.drop_last().contains(x) implies b.contains(x) by {
            let i = choose|i: int| 0 <= i < b.drop_last().len() && b.drop_last()[i] == x;
            assert(b[i] == x);
        }
        lemma_split_last(a, c, b.drop_last());
        assert(s.drop_last() =~= a.push(c) + b.drop_last());
        assert(b.drop_last().push(b.last()) =~= b);
    }
}

/// A text splits at its last `c` where it holds one.
pub proof fn lemma_split_last_none(s: Seq<char>, c: char)
    ensures
        split_last(s, c) is None <==> !s.contains(c),
    decreases s.len(),
{
    if s.len() > 0 {
        lemma_split_last_none(s.drop_last(), c);
        if s.drop_last().contains(c) {
            let i = choose|i: int| 0 <= i < s.drop_last().len() && s.drop_last()[i] == c;
            assert(s[i] == c);
        }
        if s.last() != c && s.contains(c) {
            let i = choose|i: int| 0 <= i < s.len() && s[i] == c;
            assert(s.drop_last()[i] == c);
        }
        if s.last() == c {
            assert(s.contains(c));
        }
    }
}

/// `str::rsplit_once` for a character.
pub fn rsplit_once(s: &str, c: char) -> (r: Option<(String, String)>)
    ensures
        match r {
            Some((a, b)) => split_last(s@, c) == Some((a@, b@)),
            None => split_last(s@, c) is None,
        },
{
    let x = chars_of(s);
    let mut i: usize = x.len();
    assert(x@.skip(i as int) =~= Seq::<char>::empty());
    while i > 0
        invariant
            i <= x@.len(),
            x@ == s@,
            !x@.skip(i as int).contains(c),
        decreases i,
    {
        if x[i - 1] == c {
            let a = string_of(&x, 0, i - 1);
            let b = string_of(&x, i, x.len());
            proof {
                assert(b@ =~= x@.skip(i as int));
                lemma_split_last(a@, c, b@);
                assert(a@.push(c) + b@ =~= s@);
            }
            return Some((a, b));
        }
        proof {
            let t = x@.skip(i - 1);
            assert forall|k: int| 0 <= k < t.len() implies t[k] != c by {
                if k > 0 {
                    assert(x@.skip(i as int)[k - 1] == t[k]);
                }
            }
        }
        i = i - 1;
    }
    proof {
        assert(x@.skip(0) =~= s@);
        lemma_split_last_none(s@, c);
    }
    None
}

/// The text without the carriage return that it ends in, if it does.
pub open spec fn without_return(s: Seq<char>) -> Seq<char> {
    if s.len() > 0 && s.last() == '\r' {
        s.drop_last()
    } else {
        s
    }
}

/// The lines of a text, without their ends. A line ends in a line feed, with
/// or without a carriage return before it; the last one need not.
pub open spec fn lines(s: Seq<char>) -> Seq<Seq<char>>
    decreases s.len(),
{
    if s.len() == 0 {
        Seq::empty()
    } else {
        match split_first(s, '\n') {
            Some((a, b)) => if b.len() < s.len() {
                seq![without_return(a)] + lines(b)
            } else {
                Seq::empty()
            },
            None => seq![s],
        }
    }
}

/// What follows a separator is shorter than the whole.
pub proof fn lemma_split_shorter(s: Seq<char>, c: char)
    ensures
        split_first(s, c) matches Some((a, b)) ==> a.len() + 1 + b.len() == s.len(),
    decreases s.len(),
{
    if s.len() > 0 && s[0] != c {
        lemma_split_shorter(s.skip(1), c);
    }
}

/// `str::lines`, collected.
pub fn lines_of(s: &str) -> (r: Vec<String>)
    ensures
        views(r@) == lines(s@),
{
    let mut out: Vec<String> = Vec::new();
    let mut rest = copy(s);
    assert(views(out@) + lines(rest@) =~= lines(s@));
    while !rest.as_str().is_empty()
        invariant
            views(out@) + lines(rest@) == lines(s@),
        decreases rest@.len(),
    {
        let ghost before = views(out@);
        proof {
            lemma_split_shorter(rest@, '\n');
        }
        match split_once(&rest, '\n') {
            Some((a, b)) => {
                let x = chars_of(&a);
                let line = if x.len() > 0 && x[x.len() - 1] == '\r' {
                    string_of(&x, 0, x.len() - 1)
                } else {
                    copy(&a)
                };
                assert(line@ =~= without_return(a@));
                out.push(line);
                proof {
                    assert(views(out@) =~= before.push(line@));
                    assert(before.push(line@) + lines(b@) =~= before + (seq![line@] + lines(b@)));
                }
                rest = b;
            },
            None => {
                let ghost last = rest@;
                out.push(rest);
                rest = String::new();
                proof {
                    assert(views(out@) =~= before.push(last));
                    assert(before + seq![last] =~= before.push(last) + lines(rest@));
                }
            },
        }
    }
    assert(views(out@) + lines(rest@) =~= views(out@));
    out
}

/// The text without the run of `c` that it begins with.
pub open spec fn without_leading(s: Seq<char>, c: char) -> Seq<char>
    decreases s.len(),
{
    if s.len() > 0 && s[0] == c {
        without_leading(s.skip(1), c)
    } else {
        s
    }
}

/// `str::trim_start_matches` for a character.
pub fn strip_leading(s: &str, c: char) -> (r: String)
    ensures
        r@ == without_leading(s@, c),
{
    let x = chars_of(s);
    let mut lo: usize = 0;
    assert(x@.skip(0) =~= x@);
    while lo < x.len() && x[lo] == c
        invariant
            lo <= x@.len(),
            x@ == s@,
            without_leading(x@.skip(lo as int), c) == without_leading(s@, c),
        decreases x@.len() - lo,
    {
        assert(x@.skip(lo as int).skip(1) =~= x@.skip(lo + 1));
        lo = lo + 1;
    }
    string_of(&x, lo, x.len())
}

/// A letter in lower case, where it is an ASCII one.
pub open spec fn ascii_lower(c: char) -> char {
    if 'A' <= c <= 'Z' {
        (c as u8 + 32) as char
    } else {
        c
    }
}

/// The text with its ASCII letters in lower case.
pub open spec fn ascii_lowered(s: Seq<char>) -> Seq<char> {
    s.map_values(|c: char| ascii_lower(c))
}

/// `str::to_ascii_lowercase`.
pub fn to_ascii_lowercase(s: &str) -> (r: String)
    ensures
        r@ == ascii_lowered(s@),
{
    let x = chars_of(s);
    let mut out = String::new();
    let mut i: usize = 0;
    while i < x.len()
        invariant
            i <= x@.len(),
            x@ == s@,
            out@ == ascii_lowered(s@.take(i as int)),
        decreases x@.len() - i,
    {
        let c = x[i];
        if 'A' <= c && c <= 'Z' {
            out.push((c as u8 + 32) as char);
        } else {
            out.push(c);
        }
        i = i + 1;
        assert(ascii_lowered(s@.take(i as int)) =~= ascii_lowered(s@.take(i - 1)).push(
            ascii_lower(c),
        ));
    }
    assert(s@.take(i as int) =~= s@);
    out
}

/// What `String::from_utf8_lossy` makes of bytes.
pub uninterp spec fn lossy_text(bytes: Seq<u8>) -> Seq<char>;

/// `String::from_utf8_lossy`: the bytes read as UTF-8, with a replacement
/// character for what is not, which the bytes alone decide.
#[verifier::external_body]
pub(crate) fn from_utf8_lossy(bytes: &[u8]) -> (r: String)
    ensures
        r@ == lossy_text(bytes@),
{
    String::from_utf8_lossy(bytes).into_owned()
}

/// `String::from_utf8`: bytes that are valid UTF-8 read as the text that they
/// encode, and other bytes are refused.
#[verifier::external_body]
pub(crate) fn from_utf8(bytes: Vec<u8>) -> (r: Option<String>)
    ensures
        match r {
            Some(s) => vstd::utf8::valid_utf8(bytes@) && s@ == vstd::utf8::decode_utf8(bytes@),
            None => !vstd::utf8::valid_utf8(bytes@),
        },
{
    match String::from_utf8(bytes) {
        Ok(s) => Some(s),
        Err(_) => None,
    }
}

/// What `Debug` formatting makes of a text.
pub uninterp spec fn quoted_text(s: Seq<char>) -> Seq<char>;

/// `Debug` formatting of `str`: the text in double quotes, with characters
/// escaped by rules that the text alone decides.
#[verifier::external_body]
pub(crate) fn quoted(s: &str) -> (r: String)
    ensures
        r@ == quoted_text(s@),
{
    format!("{s:?}")
}

/// The decimal digit of a number below ten.
pub open spec fn digit(d: nat) -> char {
    ('0' as nat + d) as char
}

/// A number in decimal notation.
pub open spec fn decimal(n: nat) -> Seq<char>
    decreases n,
{
    if n < 10 {
        seq![digit(n)]
    } else {
        decimal(n / 10).push(digit(n % 10))
    }
}

/// An integer in decimal notation, with a minus sign where it is negative.
pub open spec fn signed_decimal(i: int) -> Seq<char> {
    if i < 0 {
        seq!['-'] + decimal((-i) as nat)
    } else {
        decimal(i as nat)
    }
}

/// Decimal notation of an unsigned number, as `to_string` gives it.
pub fn decimal_of(n: u64) -> (r: String)
    ensures
        r@ == decimal(n as nat),
    decreases n,
{
    let d: u8 = '0' as u8 + (n % 10) as u8;
    let c = d as char;
    assert(c == digit((n % 10) as nat));
    if n < 10 {
        let mut out = String::new();
        out.push(c);
        assert(out@ =~= seq![c]);
        out
    } else {
        let mut out = decimal_of(n / 10);
        out.push(c);
        out
    }
}

/// Decimal notation of a signed number, as `to_string` gives it.
pub fn signed_decimal_of(i: i64) -> (r: String)
    ensures
        r@ == signed_decimal(i as int),
{
    if i >= 0 {
        decimal_of(i as u64)
    } else {
        let m: u64 = (-(i as i128)) as u64;
        let mut out = String::new();
        out.push('-');
        out.append(&decimal_of(m));
        assert(out@ =~= seq!['-'] + decimal(m as nat));
        out
    }
}

/// Decimal notation of an unsigned number of any size.
fn wide_decimal_of(n: u128) -> (r: String)
    ensures
        r@ == decimal(n as nat),
    decreases n,
{
    let d: u8 = '0' as u8 + (n % 10) as u8;
    let c = d as char;
    assert(c == digit((n % 10) as nat));
    if n < 10 {
        let mut out = String::new();
        out.push(c);
        assert(out@ =~= seq![c]);
        out
    } else {
        let mut out = wide_decimal_of(n / 10);
        out.push(c);
        out
    }
}

/// Decimal notation of a signed number of any size, as `to_string` gives it.
pub fn wide_signed_decimal_of(i: i128) -> (r: String)
    ensures
        r@ == signed_decimal(i as int),
{
    if i >= 0 {
        wide_decimal_of(i as u128)
    } else {
        let m: u128 = (-(i + 1)) as u128 + 1;
        let mut out = String::new();
        out.push('-');
        out.append(&wide_decimal_of(m));
        assert(out@ =~= seq!['-'] + decimal(m as nat));
        out
    }
}

/// Whether the text is one or more decimal digits.
pub open spec fn all_digits(s: Seq<char>) -> bool {
    s.len() > 0 && forall|i: int| 0 <= i < s.len() ==> '0' <= #[trigger] s[i] <= '9'
}

/// The number that a row of decimal digits denotes.
pub open spec fn digits_value(s: Seq<char>) -> nat
    decreases s.len(),
{
    if s.len() == 0 {
        0
    } else {
        digits_value(s.drop_last()) * 10 + (s.last() as nat - '0' as nat) as nat
    }
}

/// The number in a text: digits, with a plus sign or none before them.
pub open spec fn unsigned_value(s: Seq<char>) -> Option<int> {
    let d = if s.len() > 0 && s[0] == '+' {
        s.skip(1)
    } else {
        s
    };
    if all_digits(d) {
        Some(digits_value(d) as int)
    } else {
        None
    }
}

/// The integer in a text: digits, with a sign or none before them.
pub open spec fn signed_value(s: Seq<char>) -> Option<int> {
    if s.len() > 0 && s[0] == '-' {
        if all_digits(s.skip(1)) {
            Some(-(digits_value(s.skip(1)) as int))
        } else {
            None
        }
    } else {
        unsigned_value(s)
    }
}

/// The value of `v[from..]` where that is all digits and no more than `limit`.
fn bounded_digits(v: &Vec<char>, from: usize, limit: u64) -> (r: Option<u64>)
    requires
        from <= v@.len(),
    ensures
        r == (if all_digits(v@.skip(from as int)) && digits_value(v@.skip(from as int)) <= limit {
            Some(digits_value(v@.skip(from as int)) as u64)
        } else {
            None
        }),
{
    let ghost d = v@.skip(from as int);
    if from == v.len() {
        return None;
    }
    let mut acc: u64 = 0;
    let mut over: bool = false;
    let mut i: usize = from;
    assert(d.take(0) =~= Seq::<char>::empty());
    while i < v.len()
        invariant
            from <= i <= v@.len(),
            d == v@.skip(from as int),
            forall|k: int| 0 <= k < i - from ==> '0' <= #[trigger] d[k] <= '9',
            over ==> digits_value(d.take(i - from)) > limit,
            !over ==> acc == digits_value(d.take(i - from)) <= limit,
        decreases v@.len() - i,
    {
        let c = v[i];
        assert(d[i - from] == c);
        if c < '0' || c > '9' {
            return None;
        }
        assert(d.take(i + 1 - from).drop_last() =~= d.take(i - from));
        assert(digits_value(d.take(i + 1 - from)) == digits_value(d.take(i - from)) * 10 + (c as nat
            - '0' as nat));
        if !over {
            let next: u128 = acc as u128 * 10 + (c as u128 - '0' as u128);
            if next > limit as u128 {
                over = true;
            } else {
                acc = next as u64;
            }
        }
        i = i + 1;
    }
    assert(d.take(i - from) =~= d);
    if over {
        None
    } else {
        Some(acc)
    }
}

/// `str::parse::<u64>`, with the error dropped.
pub fn parse_u64(s: &str) -> (r: Option<u64>)
    ensures
        r == (match unsigned_value(s@) {
            Some(n) if n <= u64::MAX => Some(n as u64),
            _ => None,
        }),
{
    let v = chars_of(s);
    if v.len() > 0 && v[0] == '+' {
        bounded_digits(&v, 1, u64::MAX)
    } else {
        assert(v@.skip(0) =~= v@);
        bounded_digits(&v, 0, u64::MAX)
    }
}

/// `str::parse::<u32>`, with the error dropped.
pub fn parse_u32(s: &str) -> (r: Option<u32>)
    ensures
        r == (match unsigned_value(s@) {
            Some(n) if n <= u32::MAX => Some(n as u32),
            _ => None,
        }),
{
    match parse_u64(s) {
        Some(n) => if n <= u32::MAX as u64 {
            Some(n as u32)
        } else {
            None
        },
        None => None,
    }
}

/// `str::parse::<usize>`, with the error dropped.
pub fn parse_usize(s: &str) -> (r: Option<usize>)
    ensures
        r == (match unsigned_value(s@) {
            Some(n) if n <= usize::MAX => Some(n as usize),
            _ => None,
        }),
{
    match parse_u64(s) {
        Some(n) => if n <= usize::MAX as u64 {
            Some(n as usize)
        } else {
            None
        },
        None => None,
    }
}

/// `str::parse::<i32>`, with the error dropped.
pub fn parse_i32(s: &str) -> (r: Option<i32>)
    ensures
        r == (match signed_value(s@) {
            Some(n) if i32::MIN <= n <= i32::MAX => Some(n as i32),
            _ => None,
        }),
{
    let v = chars_of(s);
    if v.len() > 0 && v[0] == '-' {
        match bounded_digits(&v, 1, 0x8000_0000) {
            Some(m) => Some((-(m as i64)) as i32),
            None => None,
        }
    } else {
        match parse_u64(s) {
            Some(n) => if n <= i32::MAX as u64 {
                Some(n as i32)
            } else {
                None
            },
            None => None,
        }
    }
}

/// Decimal notation is all digits, and denotes the number it was made from.
pub proof fn lemma_decimal(n: nat)
    ensures
        all_digits(decimal(n)),
        digits_value(decimal(n)) == n,
    decreases n,
{
    if n < 10 {
        assert(decimal(n).drop_last() =~= Seq::<char>::empty());
        assert(digits_value(decimal(n).drop_last()) == 0);
    } else {
        lemma_decimal(n / 10);
        let d = decimal(n);
        assert(d.drop_last() =~= decimal(n / 10));
        assert forall|i: int| 0 <= i < d.len() implies '0' <= #[trigger] d[i] <= '9' by {
            if i < d.len() - 1 {
                assert(d[i] == decimal(n / 10)[i]);
            }
        }
    }
}

/// Reading a number back from its decimal notation gives that number.
pub proof fn lemma_unsigned_round_trip(n: nat)
    ensures
        unsigned_value(decimal(n)) == Some(n as int),
{
    lemma_decimal(n);
}

/// Reading an integer back from its decimal notation gives that integer.
pub proof fn lemma_signed_round_trip(i: int)
    ensures
        signed_value(signed_decimal(i)) == Some(i),
{
    if i < 0 {
        lemma_decimal((-i) as nat);
        assert(signed_decimal(i).skip(1) =~= decimal((-i) as nat));
    } else {
        lemma_decimal(i as nat);
    }
}

/// Decimal notation holds digits only, so none of the separators.
pub proof fn lemma_decimal_without(i: int, c: char)
    requires
        !('0' <= c <= '9'),
        c != '-',
    ensures
        !signed_decimal(i).contains(c),
{
    lemma_decimal(i as nat);
    lemma_decimal((-i) as nat);
    if signed_decimal(i).contains(c) {
        let k = choose|k: int| 0 <= k < signed_decimal(i).len() && signed_decimal(i)[k] == c;
        if i < 0 {
            assert(k == 0 || decimal((-i) as nat)[k - 1] == c);
        }
    }
}

/// Dictionary order by scalar value, which is the order of `str`.
pub open spec fn lex_before(a: Seq<char>, b: Seq<char>) -> bool
    decreases a.len(),
{
    if b.len() == 0 {
        false
    } else if a.len() == 0 {
        true
    } else if a[0] != b[0] {
        a[0] < b[0]
    } else {
        lex_before(a.skip(1), b.skip(1))
    }
}

/// `<` on strings.
pub fn before(a: &str, b: &str) -> (r: bool)
    ensures
        r == lex_before(a@, b@),
{
    let x = chars_of(a);
    let y = chars_of(b);
    let mut i: usize = 0;
    assert(x@.skip(0) =~= x@);
    assert(y@.skip(0) =~= y@);
    while i < x.len() && i < y.len()
        invariant
            i <= x@.len(),
            i <= y@.len(),
            lex_before(a@, b@) == lex_before(x@.skip(i as int), y@.skip(i as int)),
        decreases x@.len() - i,
    {
        if x[i] != y[i] {
            return x[i] < y[i];
        }
        assert(x@.skip(i as int).skip(1) =~= x@.skip(i + 1));
        assert(y@.skip(i as int).skip(1) =~= y@.skip(i + 1));
        i = i + 1;
    }
    i < y.len()
}

/// Of two different texts exactly one comes first, and equal texts neither.
pub proof fn lemma_lex_trichotomy(a: Seq<char>, b: Seq<char>)
    ensures
        !(lex_before(a, b) && lex_before(b, a)),
        !lex_before(a, b) && !lex_before(b, a) <==> a == b,
    decreases a.len(),
{
    if a.len() > 0 && b.len() > 0 {
        lemma_lex_trichotomy(a.skip(1), b.skip(1));
        if a[0] == b[0] && a.skip(1) == b.skip(1) {
            assert(a =~= seq![a[0]] + a.skip(1));
            assert(b =~= seq![b[0]] + b.skip(1));
        }
    } else if a.len() == 0 && b.len() == 0 {
        assert(a =~= b);
    }
}

/// Dictionary order is transitive.
pub proof fn lemma_lex_transitive(a: Seq<char>, b: Seq<char>, c: Seq<char>)
    requires
        lex_before(a, b),
        lex_before(b, c),
    ensures
        lex_before(a, c),
    decreases a.len(),
{
    if a.len() > 0 && a[0] == b[0] && b[0] == c[0] {
        lemma_lex_transitive(a.skip(1), b.skip(1), c.skip(1));
    }
}

/// A text that comes before another comes before or after any third.
pub proof fn lemma_lex_separates(a: Seq<char>, b: Seq<char>, c: Seq<char>)
    ensures
        lex_before(a, c) ==> lex_before(a, b) || lex_before(b, c),
{
    lemma_lex_trichotomy(a, b);
    lemma_lex_trichotomy(b, c);
    if lex_before(a, c) && !lex_before(a, b) && lex_before(b, a) {
        lemma_lex_transitive(b, a, c);
    }
}

/// Of the ASCII characters the blank and the five from the tab to the carriage
/// return are white space, and no others; beyond these it is the next line, the
/// no-break spaces, the spaces of each width, and the line and paragraph
/// separators. Controls are the characters below the blank and those from the
/// delete to the end of the second block.
pub proof fn law_white_space_and_controls(c: char)
    ensures
        (c as u32) < 128 ==> (is_space(c) <==> (c as u32) == 32 || 9 <= (c as u32) <= 13),
        (c as u32) >= 128 ==> (is_space(c) <==> {
            let n = c as u32;
            ||| n == 0x85 || n == 0xa0 || n == 0x1680
            ||| 0x2000 <= n <= 0x200a
            ||| n == 0x2028 || n == 0x2029 || n == 0x202f || n == 0x205f || n == 0x3000
        }),
        is_control(c) <==> (c as u32) < 32 || 127 <= (c as u32) < 160,
{
}

/// Trimming takes all the white space off the front and nothing else.
pub proof fn law_trimming_the_front(s: Seq<char>)
    ensures
        ({
            let n = s.len() - trimmed_start(s).len();
            &&& 0 <= n <= s.len()
            &&& trimmed_start(s) == s.skip(n)
            &&& forall|i: int| 0 <= i < n ==> is_space(#[trigger] s[i])
            &&& trimmed_start(s).len() > 0 ==> !is_space(trimmed_start(s)[0])
        }),
    decreases s.len(),
{
    if s.len() > 0 && is_space(s[0]) {
        let t = s.skip(1);
        law_trimming_the_front(t);
        let n = s.len() - trimmed_start(s).len();
        assert(t.skip(n - 1) =~= s.skip(n));
        assert forall|i: int| 0 <= i < n implies is_space(#[trigger] s[i]) by {
            if i > 0 {
                assert(s[i] == t[i - 1]);
            }
        }
    } else {
        assert(s.skip(0) =~= s);
    }
}

/// Trimming takes all the white space off the end and nothing else.
pub proof fn law_trimming_the_end(s: Seq<char>)
    ensures
        ({
            let n = trimmed_end(s).len() as int;
            &&& 0 <= n <= s.len()
            &&& trimmed_end(s) == s.take(n)
            &&& forall|i: int| n <= i < s.len() ==> is_space(#[trigger] s[i])
            &&& n > 0 ==> !is_space(s[n - 1])
        }),
    decreases s.len(),
{
    if s.len() > 0 && is_space(s.last()) {
        let t = s.drop_last();
        law_trimming_the_end(t);
        let n = trimmed_end(s).len() as int;
        assert(t.take(n) =~= s.take(n));
        assert forall|i: int| n <= i < s.len() implies is_space(#[trigger] s[i]) by {
            if i < t.len() {
                assert(s[i] == t[i]);
            }
        }
        if n > 0 {
            assert(t[n - 1] == s[n - 1]);
        }
    } else {
        assert(s.take(s.len() as int) =~= s);
    }
}

/// A trimmed text stands in the whole between white space only, with no white
/// space at its ends; trimming it again changes nothing.
pub proof fn law_trimming_keeps_what_lies_between(s: Seq<char>)
    ensures
        ({
            let from = s.len() - trimmed_start(s).len();
            let to = from + trimmed(s).len();
            &&& 0 <= from <= to <= s.len()
            &&& trimmed(s) == s.subrange(from, to)
            &&& forall|i: int| 0 <= i < from || to <= i < s.len() ==> is_space(#[trigger] s[i])
            &&& trimmed(s).len() > 0 ==> !is_space(trimmed(s)[0]) && !is_space(trimmed(s).last())
        }),
        trimmed(trimmed(s)) == trimmed(s),
{
    law_trimming_the_front(s);
    let t = trimmed_start(s);
    law_trimming_the_end(t);
    let from = s.len() - t.len();
    let to = from + trimmed(s).len();
    assert(trimmed(s) =~= s.subrange(from, to));
    assert forall|i: int| 0 <= i < from || to <= i < s.len() implies is_space(#[trigger] s[i]) by {
        if to <= i {
            assert(t[i - from] == s[i]);
        }
    }
    if trimmed(s).len() > 0 {
        assert(trimmed(s)[0] == t[0]);
        assert(trimmed(s).last() == t[trimmed(s).len() - 1]);
    }
}

/// The leading word is the longest run from the front that holds no white space.
proof fn lemma_leading_word_is_a_run(s: Seq<char>)
    ensures
        leading_word(s).len() <= s.len(),
        leading_word(s) == s.take(leading_word(s).len() as int),
        forall|i: int| 0 <= i < leading_word(s).len() ==> !is_space(#[trigger] s[i]),
        leading_word(s).len() < s.len() ==> is_space(s[leading_word(s).len() as int]),
    decreases s.len(),
{
    if s.len() > 0 && !is_space(s[0]) {
        let t = s.skip(1);
        lemma_leading_word_is_a_run(t);
        let n = leading_word(t).len() as int;
        assert(leading_word(s) =~= s.take(n + 1));
        assert forall|i: int| 0 <= i < n + 1 implies !is_space(#[trigger] s[i]) by {
            if i > 0 {
                assert(s[i] == t[i - 1]);
            }
        }
    } else {
        assert(s.take(0) =~= Seq::<char>::empty());
    }
}

/// The first word of a text follows nothing but white space, holds none, and
/// ends where white space or the text's end comes; what follows it is handed
/// out trimmed.
pub proof fn law_the_first_word_and_the_rest(s: Seq<char>)
    ensures
        ({
            let from = s.len() - trimmed_start(s).len();
            let to = from + first_word(s).len();
            &&& 0 <= from <= to <= s.len()
            &&& forall|i: int| 0 <= i < from ==> is_space(#[trigger] s[i])
            &&& first_word(s) == s.subrange(from, to)
            &&& forall|i: int| from <= i < to ==> !is_space(#[trigger] s[i])
            &&& to < s.len() ==> is_space(s[to])
            &&& after_first_word(s) == trimmed(s.skip(to))
            &&& first_word(s).len() == 0 <==> from == s.len()
        }),
{
    law_trimming_the_front(s);
    let t = trimmed_start(s);
    lemma_leading_word_is_a_run(t);
    let from = s.len() - t.len();
    let to = from + first_word(s).len();
    assert(first_word(s) =~= s.subrange(from, to));
    assert(t.skip(first_word(s).len() as int) =~= s.skip(to));
    assert forall|i: int| from <= i < to implies !is_space(#[trigger] s[i]) by {
        assert(s[i] == t[i - from]);
    }
    if to < s.len() {
        assert(s[to] == t[to - from]);
    }
}

/// A text splits at its first white space, where it has some: the halves and
/// the space between them make up the text, and the first half holds none.
pub proof fn law_splitting_at_white_space(s: Seq<char>)
    ensures
        match split_at_space(s) {
            Some((a, b)) => {
                &&& a.len() < s.len()
                &&& s == a.push(s[a.len() as int]) + b
                &&& is_space(s[a.len() as int])
                &&& forall|i: int| 0 <= i < a.len() ==> !is_space(#[trigger] a[i])
            },
            None => forall|i: int| 0 <= i < s.len() ==> !is_space(#[trigger] s[i]),
        },
{
    lemma_leading_word_is_a_run(s);
    if let Some((a, b)) = split_at_space(s) {
        assert(s =~= a.push(s[a.len() as int]) + b);
    }
}

/// A text splits at a character where it holds it: the halves and the character
/// make up the text. The first half of a split at the first one, and the second
/// of a split at the last one, do not hold it.
pub proof fn law_splits_make_up_the_text(s: Seq<char>, c: char)
    ensures
        split_first(s, c) is Some <==> s.contains(c),
        split_last(s, c) is Some <==> s.contains(c),
        split_first(s, c) matches Some((a, b)) ==> s == a.push(c) + b && !a.contains(c),
        split_last(s, c) matches Some((a, b)) ==> s == a.push(c) + b && !b.contains(c),
{
    lemma_split_none(s, c);
    lemma_split_last_none(s, c);
    lemma_first_split_makes_up(s, c);
    lemma_last_split_makes_up(s, c);
}

/// The halves of a split at the first `c`.
proof fn lemma_first_split_makes_up(s: Seq<char>, c: char)
    ensures
        split_first(s, c) matches Some((a, b)) ==> s == a.push(c) + b && !a.contains(c),
    decreases s.len(),
{
    if s.len() > 0 {
        if s[0] == c {
            assert(s =~= Seq::<char>::empty().push(c) + s.skip(1));
        } else {
            lemma_first_split_makes_up(s.skip(1), c);
            if let Some((a, b)) = split_first(s.skip(1), c) {
                assert(s =~= (seq![s[0]] + a).push(c) + b) by {
                    assert(s =~= seq![s[0]] + s.skip(1));
                }
                assert forall|i: int| 0 <= i < a.len() + 1 implies (seq![s[0]] + a)[i] != c by {
                    if i > 0 {
                        assert(a.contains(a[i - 1]));
                    }
                }
            }
        }
    }
}

/// The halves of a split at the last `c`.
proof fn lemma_last_split_makes_up(s: Seq<char>, c: char)
    ensures
        split_last(s, c) matches Some((a, b)) ==> s == a.push(c) + b && !b.contains(c),
    decreases s.len(),
{
    if s.len() > 0 {
        if s.last() == c {
            assert(s =~= s.drop_last().push(c) + Seq::<char>::empty());
        } else {
            lemma_last_split_makes_up(s.drop_last(), c);
            if let Some((a, b)) = split_last(s.drop_last(), c) {
                assert(s =~= a.push(c) + b.push(s.last())) by {
                    assert(s =~= s.drop_last().push(s.last()));
                }
                assert forall|i: int| 0 <= i < b.len() + 1 implies b.push(s.last())[i] != c by {
                    if i < b.len() {
                        assert(b.contains(b[i]));
                    }
                }
            }
        }
    }
}

/// A line feed ends a line, and takes a carriage return before it along; the
/// text after it has its own lines. A text without line feeds is one line, and
/// the empty text has none.
pub proof fn law_line_feeds_end_lines(a: Seq<char>, b: Seq<char>)
    requires
        !a.contains('\n'),
    ensures
        lines(a.push('\n') + b) == seq![a] + lines(b) || (a.len() > 0 && a.last() == '\r'),
        lines(a.push('\r').push('\n') + b) == seq![a] + lines(b),
        lines(a) == (if a.len() == 0 {
            Seq::empty()
        } else {
            seq![a]
        }),
{
    lemma_split_first(a, '\n', b);
    lemma_split_none(a, '\n');
    let r = a.push('\r');
    assert forall|i: int| 0 <= i < r.len() implies r[i] != '\n' by {
        if i < a.len() {
            assert(a.contains(a[i]));
        }
    }
    lemma_split_first(r, '\n', b);
    assert(r.drop_last() =~= a);
    assert(without_return(r) == a);
}

/// Joining puts the separator between each two parts and nowhere else: nothing
/// stays nothing, one part stays as it is, and two lists joined are what each
/// is, with one separator between them.
pub proof fn law_joining_separates_the_parts(a: Seq<Seq<char>>, b: Seq<Seq<char>>, sep: Seq<char>)
    ensures
        a.len() == 0 ==> joined(a, sep).len() == 0,
        a.len() == 1 ==> joined(a, sep) == a[0],
        a.len() > 0 && b.len() > 0 ==> joined(a + b, sep) == joined(a, sep) + sep + joined(b, sep),
    decreases b.len(),
{
    if a.len() > 0 && b.len() == 1 {
        assert((a + b).drop_last() =~= a);
    } else if a.len() > 0 && b.len() > 1 {
        assert((a + b).drop_last() =~= a + b.drop_last());
        law_joining_separates_the_parts(a, b.drop_last(), sep);
        let (x, y, z) = (joined(a, sep), joined(b.drop_last(), sep), b.last());
        assert(x + sep + y + sep + z =~= x + sep + (y + sep + z));
    }
}

/// Stripping a leading character takes all of its run off the front and nothing
/// else.
pub proof fn law_stripping_takes_the_whole_run(s: Seq<char>, c: char)
    ensures
        ({
            let n = s.len() - without_leading(s, c).len();
            &&& 0 <= n <= s.len()
            &&& without_leading(s, c) == s.skip(n)
            &&& forall|i: int| 0 <= i < n ==> #[trigger] s[i] == c
            &&& n < s.len() ==> s[n] != c
        }),
    decreases s.len(),
{
    if s.len() > 0 && s[0] == c {
        let t = s.skip(1);
        law_stripping_takes_the_whole_run(t, c);
        let n = s.len() - without_leading(s, c).len();
        assert(t.skip(n - 1) =~= s.skip(n));
        assert forall|i: int| 0 <= i < n implies #[trigger] s[i] == c by {
            if i > 0 {
                assert(s[i] == t[i - 1]);
            }
        }
        if n < s.len() {
            assert(s[n] == t[n - 1]);
        }
    } else {
        assert(s.skip(0) =~= s);
    }
}

/// The ASCII letters change their case and come back; all other characters stay
/// as they are.
pub proof fn law_letters_change_their_case(c: char)
    ensures
        'a' <= c <= 'z' ==> 'A' <= ascii_upper(c) <= 'Z' && ascii_lower(ascii_upper(c)) == c,
        'A' <= c <= 'Z' ==> 'a' <= ascii_lower(c) <= 'z' && ascii_upper(ascii_lower(c)) == c,
        'a' <= c <= 'z' ==> ascii_upper(c) as int - 'A' as int == c as int - 'a' as int,
        !('a' <= c <= 'z') ==> ascii_upper(c) == c,
        !('A' <= c <= 'Z') ==> ascii_lower(c) == c,
{
}

/// Lowering keeps a text's length and its characters in place; capitalizing
/// changes the first character alone.
pub proof fn law_case_changes_keep_places(s: Seq<char>, i: int)
    requires
        0 <= i < s.len(),
    ensures
        ascii_lowered(s).len() == s.len(),
        ascii_lowered(s)[i] == ascii_lower(s[i]),
        capitalized(s).len() == s.len(),
        capitalized(s)[i] == (if i == 0 {
            ascii_upper(s[i])
        } else {
            s[i]
        }),
{
}

/// Digits count by tens: a digit at the end of a number makes it ten times as
/// large and adds the digit.
pub proof fn law_digits_count_by_tens(s: Seq<char>, d: char)
    requires
        '0' <= d <= '9',
    ensures
        digits_value(s.push(d)) == 10 * digits_value(s) + (d as int - 48),
        digits_value(Seq::empty()) == 0,
{
    assert(s.push(d).drop_last() =~= s);
}

/// Decimal notation has no zero in front.
proof fn lemma_no_zero_in_front(n: nat)
    requires
        n > 0,
    ensures
        decimal(n).len() > 0,
        decimal(n)[0] != '0',
    decreases n,
{
    if n >= 10 {
        lemma_no_zero_in_front(n / 10);
    }
}

/// Decimal notation is digits alone with no zero in front, and reads back as the
/// number; a minus sign makes it negative, and a plus sign changes nothing.
pub proof fn law_numbers_read_back(i: int)
    ensures
        signed_value(signed_decimal(i)) == Some(i),
        i >= 0 ==> all_digits(signed_decimal(i)),
        i > 0 ==> signed_decimal(i)[0] != '0',
        i >= 0 ==> signed_value(seq!['+'] + signed_decimal(i)) == Some(i),
        i >= 0 ==> unsigned_value(signed_decimal(i)) == Some(i),
        i > 0 ==> signed_decimal(-i) == seq!['-'] + signed_decimal(i),
        i < 0 ==> unsigned_value(signed_decimal(i)) is None,
{
    let m = (if i < 0 {
        -i
    } else {
        i
    }) as nat;
    lemma_decimal(m);
    if m > 0 {
        lemma_no_zero_in_front(m);
    }
    let d = decimal(m);
    assert((seq!['-'] + d).skip(1) =~= d);
    assert((seq!['+'] + d).skip(1) =~= d);
    assert('0' <= d[0] <= '9');
    if i < 0 {
        assert((seq!['-'] + d)[0] == '-');
    }
}

/// One text comes before another where, after what they have in common at the
/// front, it has the smaller character or has ended.
pub proof fn law_dictionary_order(a: Seq<char>, b: Seq<char>, k: int)
    requires
        0 <= k <= a.len(),
        k <= b.len(),
        a.take(k) == b.take(k),
        k < a.len() && k < b.len() ==> a[k] != b[k],
    ensures
        lex_before(a, b) <==> (if k < a.len() && k < b.len() {
            a[k] < b[k]
        } else {
            a.len() < b.len()
        }),
    decreases k,
{
    if k > 0 {
        assert(a[0] == a.take(k)[0]);
        assert(b[0] == b.take(k)[0]);
        assert(a.skip(1).take(k - 1) =~= a.take(k).skip(1));
        assert(b.skip(1).take(k - 1) =~= b.take(k).skip(1));
        if k < a.len() && k < b.len() {
            assert(a.skip(1)[k - 1] == a[k]);
            assert(b.skip(1)[k - 1] == b[k]);
        }
        law_dictionary_order(a.skip(1), b.skip(1), k - 1);
    }
}

/// A text occurs in another exactly where the other is made up of something,
/// the text, and something more.
pub proof fn law_occurrences_lie_within(s: Seq<char>, p: Seq<char>, before: Seq<char>, after: Seq<char>)
    ensures
        occurs(before + p + after, p),
        occurs(s, p) ==> exists|i: int|
            0 <= i <= s.len() - p.len() && s == #[trigger] s.take(i) + p + s.skip(i + p.len()),
{
    let whole = before + p + after;
    assert(whole.subrange(before.len() as int, (before.len() + p.len()) as int) =~= p);
    assert(occurs_at(whole, p, before.len() as int));
    if occurs(s, p) {
        let i = choose|i: int| occurs_at(s, p, i);
        assert(s =~= s.take(i) + p + s.skip(i + p.len()));
    }
}

} // verus!
