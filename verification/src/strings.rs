//! Strings as sequences of characters.

use vstd::prelude::*;
use vstd::utf8::{decode_utf8, valid_utf8};

verus! {

/// The text that `String::from_utf8_lossy` reads from bytes: what they encode, with
/// the replacement character for what is not valid UTF-8.
pub uninterp spec fn lossy_text(bytes: Seq<u8>) -> Seq<char>;

/// Wraps `String::from_utf8_lossy`. Its result depends on the bytes alone, and valid
/// UTF-8 is decoded as it is. Where the replacement characters stand in text that is
/// not valid is left to the name.
#[verifier::external_body]
pub(crate) fn decode_lossy(bytes: &[u8]) -> (r: String)
    ensures
        r@ == lossy_text(bytes@),
        valid_utf8(bytes@) ==> r@ == decode_utf8(bytes@),
{
    String::from_utf8_lossy(bytes).into_owned()
}

/// A character with the Unicode property White_Space.
pub open spec fn white_space(c: char) -> bool {
    ||| '\t' <= c <= '\r'
    ||| c == ' '
    ||| c == '\u{85}'
    ||| c == '\u{a0}'
    ||| c == '\u{1680}'
    ||| '\u{2000}' <= c <= '\u{200a}'
    ||| c == '\u{2028}'
    ||| c == '\u{2029}'
    ||| c == '\u{202f}'
    ||| c == '\u{205f}'
    ||| c == '\u{3000}'
}

/// `s` without the white space it starts with.
pub open spec fn trim_start(s: Seq<char>) -> Seq<char>
    decreases s.len(),
{
    if s.len() > 0 && white_space(s[0]) {
        trim_start(s.skip(1))
    } else {
        s
    }
}

/// `s` without the white space it ends with.
pub open spec fn trim_end(s: Seq<char>) -> Seq<char>
    decreases s.len(),
{
    if s.len() > 0 && white_space(s.last()) {
        trim_end(s.drop_last())
    } else {
        s
    }
}

/// `str::trim` takes the white space off both ends of a string.
pub assume_specification[ str::trim ](s: &str) -> (r: &str)
    ensures
        r@ == trim_end(trim_start(s@)),
;

/// `String::push` adds one character at the end.
pub assume_specification[ String::push ](s: &mut String, c: char)
    ensures
        final(s)@ == old(s)@.push(c),
;

/// `String::pop` takes the last character off and returns it, or returns `None`
/// and changes nothing where the string is empty.
pub assume_specification[ String::pop ](s: &mut String) -> (r: Option<char>)
    ensures
        old(s)@.len() == 0 ==> r is None && final(s)@ == old(s)@,
        old(s)@.len() > 0 ==> r == Some(old(s)@.last()) && final(s)@ == old(s)@.drop_last(),
;

/// The characters of `text`.
pub fn to_chars(text: &str) -> (r: Vec<char>)
    ensures
        r@ == text@,
{
    let mut r: Vec<char> = Vec::new();
    for c in it: text.chars()
        invariant
            it.seq() == text@,
            r@ == text@.take(it.index()),
    {
        proof {
            assert(text@.take(it.index() + 1) =~= text@.take(it.index()).push(c));
        }
        r.push(c);
    }
    assert(text@.take(text@.len() as int) =~= text@);
    r
}

/// The string made of `chars`.
pub fn from_chars(chars: &[char]) -> (r: String)
    ensures
        r@ == chars@,
{
    let mut r = String::new();
    let mut i: usize = 0;
    while i < chars.len()
        invariant
            i <= chars@.len(),
            r@ == chars@.take(i as int),
        decreases chars@.len() - i,
    {
        assert(chars@.take(i + 1) =~= chars@.take(i as int).push(chars@[i as int]));
        r.push(chars[i]);
        i = i + 1;
    }
    assert(chars@.take(i as int) =~= chars@);
    r
}

/// `s` holds nothing but white space.
pub open spec fn blank(s: Seq<char>) -> bool {
    forall|i: int| 0 <= i < s.len() ==> white_space(#[trigger] s[i])
}

proof fn lemma_trim_start(s: Seq<char>)
    ensures
        blank(trim_start(s)) == blank(s),
        trim_start(s).len() > 0 ==> !white_space(trim_start(s)[0]),
    decreases s.len(),
{
    if s.len() > 0 && white_space(s[0]) {
        let t = s.skip(1);
        lemma_trim_start(t);
        assert(blank(t) == blank(s)) by {
            if blank(t) {
                assert forall|i: int| 0 <= i < s.len() implies white_space(#[trigger] s[i]) by {
                    if i > 0 {
                        assert(s[i] == t[i - 1]);
                    }
                }
            } else {
                let i = choose|i: int| 0 <= i < t.len() && !white_space(#[trigger] t[i]);
                assert(t[i] == s[i + 1]);
            }
        }
    }
}

proof fn lemma_trim_end(s: Seq<char>)
    ensures
        trim_end(s).len() <= s.len(),
        s.len() > 0 && !white_space(s[0]) ==> trim_end(s).len() > 0,
    decreases s.len(),
{
    if s.len() > 0 && white_space(s.last()) {
        let t = s.drop_last();
        lemma_trim_end(t);
        if !white_space(s[0]) {
            assert(t.len() > 0);
            assert(t[0] == s[0]);
        }
    }
}

/// Trimming leaves nothing of a string exactly if it holds nothing but white space.
pub proof fn lemma_trim_blank(s: Seq<char>)
    ensures
        (trim_end(trim_start(s)).len() == 0) == blank(s),
{
    let t = trim_start(s);
    lemma_trim_start(s);
    lemma_trim_end(t);
    if t.len() > 0 {
        assert(!white_space(t[0]));
    }
}

/// Whether `text` holds nothing but white space.
pub fn is_blank(text: &str) -> (r: bool)
    ensures
        r == blank(text@),
{
    proof {
        lemma_trim_blank(text@);
    }
    text.trim().is_empty()
}

/// `s` starts with `pattern`.
pub open spec fn starts_with(s: Seq<char>, pattern: Seq<char>) -> bool {
    pattern.len() <= s.len() && s.take(pattern.len() as int) == pattern
}

/// `s` without the occurrences of `pattern` that are met from left to right.
pub open spec fn remove_all(s: Seq<char>, pattern: Seq<char>) -> Seq<char>
    decreases s.len(),
{
    if s.len() == 0 || pattern.len() == 0 {
        s
    } else if starts_with(s, pattern) {
        remove_all(s.skip(pattern.len() as int), pattern)
    } else {
        seq![s[0]] + remove_all(s.skip(1), pattern)
    }
}

/// The sequence by which a shell turns bracketed paste on: an escape character and
/// `[?2004h`.
pub open spec fn paste_on() -> Seq<char> {
    seq!['\x1b', '[', '?', '2', '0', '0', '4', 'h']
}

/// The sequence by which a shell turns bracketed paste off: an escape character and
/// `[?2004l`.
pub open spec fn paste_off() -> Seq<char> {
    seq!['\x1b', '[', '?', '2', '0', '0', '4', 'l']
}

/// `s` without the sequences that turn bracketed paste on, and then without those
/// that turn it off.
pub open spec fn without_paste_mode(s: Seq<char>) -> Seq<char> {
    remove_all(remove_all(s, paste_on()), paste_off())
}

/// Whether `pattern` stands in `chars` at the index `at`.
fn matches_at(chars: &[char], at: usize, pattern: &[char]) -> (r: bool)
    requires
        at <= chars@.len(),
    ensures
        r == starts_with(chars@.skip(at as int), pattern@),
{
    let ghost rest = chars@.skip(at as int);
    let len = chars.len();
    if len - at < pattern.len() {
        return false;
    }
    let mut i: usize = 0;
    while i < pattern.len()
        invariant
            i <= pattern@.len(),
            len == chars@.len(),
            at + pattern@.len() <= len,
            rest == chars@.skip(at as int),
            forall|j: int| 0 <= j < i ==> rest[j] == #[trigger] pattern@[j],
        decreases pattern@.len() - i,
    {
        if chars[at + i] != pattern[i] {
            assert(rest.take(pattern@.len() as int)[i as int] != pattern@[i as int]);
            return false;
        }
        i = i + 1;
    }
    assert(rest.take(pattern@.len() as int) =~= pattern@);
    true
}

/// Removes the occurrences of `pattern` from `chars`.
fn remove_pattern(chars: &[char], pattern: &[char]) -> (r: Vec<char>)
    requires
        pattern@.len() > 0,
    ensures
        r@ == remove_all(chars@, pattern@),
{
    let mut r: Vec<char> = Vec::new();
    let mut i: usize = 0;
    assert(chars@.skip(0) =~= chars@);
    assert(r@ + remove_all(chars@, pattern@) =~= remove_all(chars@, pattern@));
    while i < chars.len()
        invariant
            i <= chars@.len(),
            pattern@.len() > 0,
            r@ + remove_all(chars@.skip(i as int), pattern@) == remove_all(chars@, pattern@),
        decreases chars@.len() - i,
    {
        let ghost rest = chars@.skip(i as int);
        if matches_at(chars, i, pattern) {
            assert(rest.skip(pattern@.len() as int) =~= chars@.skip(i + pattern@.len()));
            i = i + pattern.len();
        } else {
            assert(rest.skip(1) =~= chars@.skip(i + 1));
            let ghost tail = remove_all(rest.skip(1), pattern@);
            assert(r@ + (seq![rest[0]] + tail) =~= r@.push(rest[0]) + tail);
            r.push(chars[i]);
            i = i + 1;
        }
    }
    assert(chars@.skip(i as int) =~= Seq::empty());
    assert(r@ + remove_all(chars@.skip(i as int), pattern@) =~= r@);
    r
}

/// Removes the sequences that turn bracketed paste on and off.
pub fn remove_paste_mode(text: &str) -> (r: String)
    ensures
        r@ == without_paste_mode(text@),
{
    let on: Vec<char> = vec!['\x1b', '[', '?', '2', '0', '0', '4', 'h'];
    let off: Vec<char> = vec!['\x1b', '[', '?', '2', '0', '0', '4', 'l'];
    assert(on@ =~= paste_on());
    assert(off@ =~= paste_off());
    let chars = to_chars(text);
    let once = remove_pattern(chars.as_slice(), on.as_slice());
    let twice = remove_pattern(once.as_slice(), off.as_slice());
    from_chars(twice.as_slice())
}

/// The first character of `pattern` does not recur in it.
pub open spec fn head_is_unique(pattern: Seq<char>) -> bool {
    &&& pattern.len() > 0
    &&& forall|i: int| 1 <= i < pattern.len() ==> #[trigger] pattern[i] != pattern[0]
}

/// Both sequences of bracketed paste start with a character that does not recur in
/// them.
pub proof fn lemma_paste_heads()
    ensures
        head_is_unique(paste_on()),
        head_is_unique(paste_off()),
{
}

/// Wherever the pattern stands it is removed, and what stands before it and behind
/// it is treated as if each stood alone.
pub proof fn lemma_occurrence_removed(a: Seq<char>, pattern: Seq<char>, b: Seq<char>)
    requires
        head_is_unique(pattern),
    ensures
        remove_all(a + pattern + b, pattern) == remove_all(a, pattern) + remove_all(b, pattern),
    decreases a.len(),
{
    let s = a + pattern + b;
    let n = pattern.len() as int;
    if a.len() == 0 {
        assert(s.take(n) =~= pattern);
        assert(s.skip(n) =~= b);
        assert(remove_all(a, pattern) + remove_all(b, pattern) =~= remove_all(b, pattern));
    } else if starts_with(s, pattern) {
        if a.len() < n {
            assert(s[a.len() as int] == pattern[0]);
            assert(s[a.len() as int] == s.take(n)[a.len() as int]);
            assert(pattern[a.len() as int] != pattern[0]);
        }
        assert(a.take(n) =~= s.take(n));
        assert(s.skip(n) =~= a.skip(n) + pattern + b);
        lemma_occurrence_removed(a.skip(n), pattern, b);
    } else {
        if starts_with(a, pattern) {
            assert(s.take(n) =~= a.take(n));
        }
        assert(s[0] == a[0]);
        assert(s.skip(1) =~= a.skip(1) + pattern + b);
        lemma_occurrence_removed(a.skip(1), pattern, b);
        let rest = remove_all(a.skip(1), pattern);
        assert(seq![a[0]] + (rest + remove_all(b, pattern)) =~= seq![a[0]] + rest + remove_all(
            b,
            pattern,
        ));
    }
}

/// Text in which the pattern stands nowhere is left as it is.
pub proof fn lemma_absent_pattern(s: Seq<char>, pattern: Seq<char>)
    requires
        forall|i: int| 0 <= i < s.len() ==> !starts_with(#[trigger] s.skip(i), pattern),
    ensures
        remove_all(s, pattern) == s,
    decreases s.len(),
{
    if s.len() > 0 && pattern.len() > 0 {
        assert(s.skip(0) =~= s);
        let t = s.skip(1);
        assert forall|i: int| 0 <= i < t.len() implies !starts_with(#[trigger] t.skip(i), pattern) by {
            assert(t.skip(i) =~= s.skip(i + 1));
        }
        lemma_absent_pattern(t, pattern);
        assert(seq![s[0]] + t =~= s);
    }
}

/// Text without escape characters holds no sequence of bracketed paste, and is left
/// as it is.
pub proof fn lemma_no_paste_mode(s: Seq<char>)
    requires
        forall|i: int| 0 <= i < s.len() ==> #[trigger] s[i] != '\x1b',
    ensures
        without_paste_mode(s) == s,
{
    assert forall|i: int| 0 <= i < s.len() implies !starts_with(#[trigger] s.skip(i), paste_on())
        && !starts_with(s.skip(i), paste_off()) by {
        assert(s.skip(i)[0] == s[i]);
        if starts_with(s.skip(i), paste_on()) {
            assert(s.skip(i).take(8)[0] == '\x1b');
        }
        if starts_with(s.skip(i), paste_off()) {
            assert(s.skip(i).take(8)[0] == '\x1b');
        }
    }
    lemma_absent_pattern(s, paste_on());
    lemma_absent_pattern(s, paste_off());
}

} // verus!
