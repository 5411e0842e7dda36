//! Text as a sequence of characters.
//!
//! Every rule of this crate that reads text (tool output, paths, names) is stated
//! over `Seq<char>`. This module defines the sequence functions those rules use and
//! the executable counterparts, which work on character slices.

use vstd::prelude::*;

verus! {

broadcast use vstd::string::group_string_axioms;

// ---------------------------------------------------------------------------
// Sequence functions
// ---------------------------------------------------------------------------

/// The characters with the Unicode `White_Space` property.
pub open spec fn is_space(c: char) -> bool {
    ||| '\u{9}' <= c <= '\u{d}'
    ||| c == '\u{20}'
    ||| c == '\u{85}'
    ||| c == '\u{a0}'
    ||| c == '\u{1680}'
    ||| '\u{2000}' <= c <= '\u{200a}'
    ||| c == '\u{2028}'
    ||| c == '\u{2029}'
    ||| c == '\u{202f}'
    ||| c == '\u{205f}'
    ||| c == '\u{3000}'
}

/// The views of a list of strings.
pub open spec fn views(v: Seq<String>) -> Seq<Seq<char>> {
    v.map_values(|s: String| s@)
}

/// The views of a list of string slices.
pub open spec fn str_views(v: Seq<&'static str>) -> Seq<Seq<char>> {
    v.map_values(|s: &'static str| s@)
}

/// The contents of a list of character slices.
pub open spec fn slices(v: Seq<&[char]>) -> Seq<Seq<char>> {
    v.map_values(|s: &[char]| s@)
}

/// The position of the first `c` in `s`, or the length of `s`.
pub open spec fn index_of(s: Seq<char>, c: char) -> nat
    decreases s.len(),
{
    if s.len() == 0 || s[0] == c {
        0
    } else {
        1 + index_of(s.skip(1), c)
    }
}

/// The pieces of `s` between the occurrences of `sep`; one more than there are
/// occurrences.
pub open spec fn split_on(s: Seq<char>, sep: char) -> Seq<Seq<char>>
    decreases s.len(),
{
    let i = index_of(s, sep) as int;
    if i >= s.len() {
        seq![s]
    } else {
        seq![s.take(i)] + split_on(s.skip(i + 1), sep)
    }
}

/// `s` without a trailing carriage return.
pub open spec fn drop_cr(s: Seq<char>) -> Seq<char> {
    if s.len() > 0 && s.last() == '\r' {
        s.drop_last()
    } else {
        s
    }
}

/// The lines of `s`: each ends at a line feed or at a carriage return followed by
/// one; the last ending is optional.
pub open spec fn lines(s: Seq<char>) -> Seq<Seq<char>>
    decreases s.len(),
{
    let i = index_of(s, '\n') as int;
    if s.len() == 0 {
        seq![]
    } else if i >= s.len() {
        seq![s]
    } else {
        seq![drop_cr(s.take(i))] + lines(s.skip(i + 1))
    }
}

/// `s` without its leading white space.
pub open spec fn trim_start(s: Seq<char>) -> Seq<char>
    decreases s.len(),
{
    if s.len() > 0 && is_space(s[0]) {
        trim_start(s.skip(1))
    } else {
        s
    }
}

/// `s` without its trailing white space.
pub open spec fn trim_end(s: Seq<char>) -> Seq<char>
    decreases s.len(),
{
    if s.len() > 0 && is_space(s.last()) {
        trim_end(s.drop_last())
    } else {
        s
    }
}

/// `s` without white space at either end.
pub open spec fn trim(s: Seq<char>) -> Seq<char> {
    trim_end(trim_start(s))
}

/// `s` without its trailing `c`s.
pub open spec fn trim_end_char(s: Seq<char>, c: char) -> Seq<char>
    decreases s.len(),
{
    if s.len() > 0 && s.last() == c {
        trim_end_char(s.drop_last(), c)
    } else {
        s
    }
}

/// The maximal runs of `s` without white space.
pub open spec fn words(s: Seq<char>) -> Seq<Seq<char>>
    decreases s.len(),
{
    if s.len() == 0 {
        seq![]
    } else if is_space(s[0]) {
        words(s.skip(1))
    } else {
        let k = word_len(s) as int;
        if 0 < k <= s.len() {
            seq![s.take(k)] + words(s.skip(k))
        } else {
            seq![]
        }
    }
}

/// How many leading characters of `s` come before the first white space.
pub open spec fn word_len(s: Seq<char>) -> nat
    decreases s.len(),
{
    if s.len() == 0 || is_space(s[0]) {
        0
    } else {
        1 + word_len(s.skip(1))
    }
}

/// The first word of `s`, if there is one.
pub open spec fn first_word(s: Seq<char>) -> Option<Seq<char>> {
    if words(s).len() > 0 {
        Some(words(s)[0])
    } else {
        None
    }
}

/// Whether `s` begins with `p`.
pub open spec fn starts_with(s: Seq<char>, p: Seq<char>) -> bool {
    p.len() <= s.len() && s.take(p.len() as int) == p
}

/// Whether `s` ends with `p`.
pub open spec fn ends_with(s: Seq<char>, p: Seq<char>) -> bool {
    p.len() <= s.len() && s.skip(s.len() - p.len()) == p
}

/// `s` without the suffix `p`, or `s` itself where it does not end with it.
pub open spec fn without_suffix(s: Seq<char>, p: Seq<char>) -> Seq<char> {
    if ends_with(s, p) {
        s.take(s.len() - p.len())
    } else {
        s
    }
}

/// The position of the last `c` in `s`, or -1.
pub open spec fn last_index(s: Seq<char>, c: char) -> int
    decreases s.len(),
{
    if s.len() == 0 {
        -1
    } else if s.last() == c {
        s.len() - 1
    } else {
        last_index(s.drop_last(), c)
    }
}

/// The position of the last white space in `s`, or -1.
pub open spec fn last_space(s: Seq<char>) -> int
    decreases s.len(),
{
    if s.len() == 0 {
        -1
    } else if is_space(s.last()) {
        s.len() - 1
    } else {
        last_space(s.drop_last())
    }
}

/// `a` comes before `b` in dictionary order of code points, the order of strings.
pub open spec fn text_lt(a: Seq<char>, b: Seq<char>) -> bool
    decreases a.len(),
{
    if b.len() == 0 {
        false
    } else if a.len() == 0 {
        true
    } else if a[0] != b[0] {
        a[0] < b[0]
    } else {
        text_lt(a.skip(1), b.skip(1))
    }
}

/// The decimal form of an integer, with a minus sign where it is negative.
pub open spec fn signed(n: int) -> Seq<char> {
    if n < 0 {
        "-"@ + decimal((-n) as nat)
    } else {
        decimal(n as nat)
    }
}

/// The decimal form of `n`, with a minus sign where it is negative.
pub fn signed_string(n: i32) -> (s: String)
    ensures
        s@ == signed(n as int),
{
    let wide = n as i64;
    if wide < 0 {
        join2("-", &decimal_string((-wide) as u64))
    } else {
        decimal_string(wide as u64)
    }
}

/// The character of one decimal digit.
pub open spec fn digit(d: nat) -> char {
    (('0' as nat) + d) as char
}

/// The decimal form of `n`.
pub open spec fn decimal(n: nat) -> Seq<char>
    decreases n,
{
    if n < 10 {
        seq![digit(n)]
    } else {
        decimal(n / 10).push(digit(n % 10))
    }
}

/// Whether every character of `t` is a decimal digit.
pub open spec fn all_digits(t: Seq<char>) -> bool {
    forall|i: int| 0 <= i < t.len() ==> '0' <= #[trigger] t[i] <= '9'
}

/// The number that a sequence of decimal digits spells.
pub open spec fn number(t: Seq<char>) -> nat
    decreases t.len(),
{
    if t.len() == 0 {
        0
    } else {
        10 * number(t.drop_last()) + (t.last() as nat - '0' as nat) as nat
    }
}

/// The unsigned 32-bit number that `t` spells in decimal digits, if it fits.
pub open spec fn u32_of(t: Seq<char>) -> Option<u32> {
    if t.len() > 0 && all_digits(t) && number(t) <= u32::MAX {
        Some(number(t) as u32)
    } else {
        None
    }
}

/// The last four octal digits of `n`.
pub open spec fn octal4(n: nat) -> Seq<char> {
    seq![digit(n / 512 % 8), digit(n / 64 % 8), digit(n / 8 % 8), digit(n % 8)]
}

/// Whether some element of `list` equals `t`.
pub open spec fn listed(list: Seq<Seq<char>>, t: Seq<char>) -> bool {
    exists|i: int| 0 <= i < list.len() && list[i] == t
}

// ---------------------------------------------------------------------------
// Facts about them
// ---------------------------------------------------------------------------

/// A prefix without `c`, followed by `c` or the end, reaches up to the first `c`.
pub proof fn lemma_index_of(s: Seq<char>, c: char, k: int)
    requires
        0 <= k <= s.len(),
        forall|j: int| 0 <= j < k ==> #[trigger] s[j] != c,
        k < s.len() ==> s[k] == c,
    ensures
        index_of(s, c) == k,
    decreases k,
{
    if k > 0 {
        lemma_index_of(s.skip(1), c, k - 1);
    }
}

/// A prefix without white space, followed by some or the end, is the whole word.
pub proof fn lemma_word_len(s: Seq<char>, k: int)
    requires
        0 <= k <= s.len(),
        forall|j: int| 0 <= j < k ==> !is_space(#[trigger] s[j]),
        k < s.len() ==> is_space(s[k]),
    ensures
        word_len(s) == k,
    decreases k,
{
    if k > 0 {
        lemma_word_len(s.skip(1), k - 1);
    }
}

/// One more element of a list adds that element.
pub proof fn lemma_listed_step(list: Seq<Seq<char>>, k: int, t: Seq<char>)
    requires
        0 <= k < list.len(),
    ensures
        listed(list.take(k + 1), t) <==> listed(list.take(k), t) || list[k] == t,
{
    let more = list.take(k + 1);
    let less = list.take(k);
    if listed(more, t) {
        let i = choose|i: int| 0 <= i < more.len() && more[i] == t;
        if i < k {
            assert(less[i] == t);
        }
    }
    if listed(less, t) {
        let i = choose|i: int| 0 <= i < less.len() && less[i] == t;
        assert(more[i] == t);
    }
    if list[k] == t {
        assert(more[k] == t);
    }
}

/// The last position of `c` is one that holds it.
pub proof fn lemma_last_index(s: Seq<char>, c: char)
    ensures
        -1 <= last_index(s, c) < s.len(),
        last_index(s, c) >= 0 ==> s[last_index(s, c)] == c,
    decreases s.len(),
{
    if s.len() > 0 && s.last() != c {
        lemma_last_index(s.drop_last(), c);
    }
}

/// The pieces of a text split at `sep` are those of its tail once a piece is cut off.
pub proof fn lemma_split_step(s: Seq<char>, sep: char, k: int)
    requires
        0 <= k <= s.len(),
        forall|j: int| 0 <= j < k ==> #[trigger] s[j] != sep,
        k < s.len() ==> s[k] == sep,
    ensures
        k == s.len() ==> split_on(s, sep) == seq![s],
        k < s.len() ==> split_on(s, sep) == seq![s.take(k)] + split_on(s.skip(k + 1), sep),
{
    lemma_index_of(s, sep, k);
}

/// The lines of a text are those of its tail once a line is cut off.
pub proof fn lemma_lines_step(s: Seq<char>, k: int)
    requires
        0 <= k <= s.len(),
        forall|j: int| 0 <= j < k ==> #[trigger] s[j] != '\n',
        k < s.len() ==> s[k] == '\n',
    ensures
        0 < k == s.len() ==> lines(s) == seq![s],
        k < s.len() ==> lines(s) == seq![drop_cr(s.take(k))] + lines(s.skip(k + 1)),
{
    lemma_index_of(s, '\n', k);
}

// ---------------------------------------------------------------------------
// Executable functions
// ---------------------------------------------------------------------------

/// Whether `c` is white space.
pub fn space(c: char) -> (b: bool)
    ensures
        b == is_space(c),
{
    ('\u{9}' <= c && c <= '\u{d}') || c == '\u{20}' || c == '\u{85}' || c == '\u{a0}' || c
        == '\u{1680}' || ('\u{2000}' <= c && c <= '\u{200a}') || c == '\u{2028}' || c
        == '\u{2029}' || c == '\u{202f}' || c == '\u{205f}' || c == '\u{3000}'
}

/// The characters of `s`.
pub fn chars_of(s: &str) -> (v: Vec<char>)
    ensures
        v@ == s@,
{
    let mut v: Vec<char> = Vec::new();
    for c in it: s.chars()
        invariant
            it.seq() == s@,
            v@ == s@.take(it.index() as int),
    {
        v.push(c);
    }
    proof {
        assert(s@.take(s@.len() as int) == s@);
    }
    v
}

/// `String::push` appends one character.
pub assume_specification[ String::push ](s: &mut String, c: char)
    ensures
        final(s)@ == old(s)@.push(c),
;

/// The text that `String::from_utf8_lossy` reads bytes as.
pub uninterp spec fn lossy_text(bytes: Seq<u8>) -> Seq<char>;

/// `String::from_utf8_lossy`: a text determined by the bytes alone; where they are
/// valid UTF-8, the text that they encode.
#[verifier::external_body]
pub(crate) fn decode_lossy(bytes: &[u8]) -> (s: String)
    ensures
        s@ == lossy_text(bytes@),
        vstd::utf8::valid_utf8(bytes@) ==> vstd::utf8::encode_utf8(s@) == bytes@,
{
    String::from_utf8_lossy(bytes).into_owned()
}

/// What `String::from_utf8` says is wrong with bytes that are not UTF-8.
pub uninterp spec fn utf8_fault(bytes: Seq<u8>) -> Seq<char>;

/// `String::from_utf8`: the text that the bytes encode where they are valid UTF-8, else
/// the text of the error, which the bytes alone determine.
#[verifier::external_body]
pub(crate) fn decode_utf8(bytes: Vec<u8>) -> (r: Result<String, String>)
    ensures
        match r {
            Ok(s) => vstd::utf8::valid_utf8(bytes@) && s@ == vstd::utf8::decode_utf8(bytes@),
            Err(e) => !vstd::utf8::valid_utf8(bytes@) && e@ == utf8_fault(bytes@),
        },
{
    String::from_utf8(bytes).map_err(|e| e.to_string())
}

/// The form in which `Debug` prints a string: in double quotes, with escapes.
pub uninterp spec fn debug_text(t: Seq<char>) -> Seq<char>;

/// `format!("{:?}", s)` of a string: a text determined by its characters alone.
#[verifier::external_body]
pub(crate) fn debug_string(s: &str) -> (r: String)
    ensures
        r@ == debug_text(s@),
{
    format!("{:?}", s)
}

/// The string of the characters of `cs`.
pub fn string_of(cs: &[char]) -> (s: String)
    ensures
        s@ == cs@,
{
    let mut s = String::new();
    let mut i: usize = 0;
    while i < cs.len()
        invariant
            i <= cs@.len(),
            s@ == cs@.take(i as int),
        decreases cs@.len() - i,
    {
        s.push(cs[i]);
        i += 1;
        proof {
            assert(cs@.take(i as int) == cs@.take(i - 1).push(cs@[i - 1]));
        }
    }
    proof {
        assert(cs@.take(cs@.len() as int) == cs@);
    }
    s
}

/// Whether two texts are equal.
pub fn same(a: &str, b: &str) -> (r: bool)
    ensures
        r == (a@ == b@),
{
    let mut x = a.chars();
    let mut y = b.chars();
    let ghost mut k: int = 0;
    loop
        invariant
            0 <= k <= a@.len(),
            k <= b@.len(),
            vstd::std_specs::iter::IteratorSpec::remaining(&x) == a@.skip(k),
            vstd::std_specs::iter::IteratorSpec::remaining(&y) == b@.skip(k),
            a@.take(k) == b@.take(k),
        decreases a@.len() - k,
    {
        let p = x.next();
        let q = y.next();
        match (p, q) {
            (Some(c), Some(d)) => {
                proof {
                    assert(a@.skip(k)[0] == a@[k] && b@.skip(k)[0] == b@[k]);
                }
                if c != d {
                    return false;
                }
                proof {
                    assert(a@.take(k + 1) == a@.take(k).push(a@[k]));
                    assert(b@.take(k + 1) == b@.take(k).push(b@[k]));
                    assert(a@.skip(k).drop_first() == a@.skip(k + 1));
                    assert(b@.skip(k).drop_first() == b@.skip(k + 1));
                    k = k + 1;
                }
            },
            (None, None) => {
                proof {
                    assert(a@.take(k) == a@);
                    assert(b@.take(k) == b@);
                }
                return true;
            },
            _ => {
                return false;
            },
        }
    }
}

/// Whether `cs` holds exactly the characters of `t`.
pub fn is_text(cs: &[char], t: &str) -> (r: bool)
    ensures
        r == (cs@ == t@),
{
    let d = chars_of(t);
    same_chars(cs, &d)
}

/// Whether two character slices are equal.
pub fn same_chars(a: &[char], b: &[char]) -> (r: bool)
    ensures
        r == (a@ == b@),
{
    if a.len() != b.len() {
        return false;
    }
    let mut i: usize = 0;
    while i < a.len()
        invariant
            i <= a@.len() == b@.len(),
            forall|j: int| 0 <= j < i ==> #[trigger] a@[j] == b@[j],
        decreases a@.len() - i,
    {
        if a[i] != b[i] {
            return false;
        }
        i += 1;
    }
    proof {
        assert(a@ =~= b@);
    }
    true
}

/// The position of the first `c` in `cs`, or its length.
pub fn find_char(cs: &[char], c: char) -> (k: usize)
    ensures
        k == index_of(cs@, c),
        k <= cs@.len(),
        forall|j: int| 0 <= j < k ==> #[trigger] cs@[j] != c,
        k < cs@.len() ==> cs@[k as int] == c,
{
    let mut k: usize = 0;
    while k < cs.len() && cs[k] != c
        invariant
            k <= cs@.len(),
            forall|j: int| 0 <= j < k ==> #[trigger] cs@[j] != c,
        decreases cs@.len() - k,
    {
        k += 1;
    }
    proof {
        lemma_index_of(cs@, c, k as int);
    }
    k
}

/// `cs` split at every `sep`.
pub fn split(cs: &[char], sep: char) -> (out: Vec<&[char]>)
    ensures
        slices(out@) == split_on(cs@, sep),
{
    let mut out: Vec<&[char]> = Vec::new();
    let mut rest = cs;
    loop
        invariant
            split_on(cs@, sep) == slices(out@) + split_on(rest@, sep),
        decreases rest@.len(),
    {
        let k = find_char(rest, sep);
        proof {
            lemma_split_step(rest@, sep, k as int);
        }
        if k == rest.len() {
            out.push(rest);
            proof {
                assert(split_on(cs@, sep) == slices(out@));
            }
            return out;
        }
        out.push(&rest[0..k]);
        rest = &rest[k + 1..rest.len()];
        proof {
            assert(split_on(cs@, sep) == slices(out@) + split_on(rest@, sep));
        }
    }
}

/// The lines of `cs`.
pub fn split_lines(cs: &[char]) -> (out: Vec<&[char]>)
    ensures
        slices(out@) == lines(cs@),
{
    let mut out: Vec<&[char]> = Vec::new();
    let mut rest = cs;
    while rest.len() > 0
        invariant
            lines(cs@) == slices(out@) + lines(rest@),
        decreases rest@.len(),
    {
        let k = find_char(rest, '\n');
        let ghost before = slices(out@);
        proof {
            lemma_lines_step(rest@, k as int);
        }
        if k == rest.len() {
            out.push(rest);
            proof {
                assert(lines(cs@) == slices(out@));
            }
            return out;
        }
        let line = &rest[0..k];
        if k > 0 && line[k - 1] == '\r' {
            out.push(&line[0..k - 1]);
        } else {
            out.push(line);
        }
        proof {
            assert(slices(out@) == before.push(drop_cr(rest@.take(k as int))));
        }
        rest = &rest[k + 1..rest.len()];
        proof {
            assert(lines(cs@) == slices(out@) + lines(rest@));
        }
    }
    proof {
        assert(lines(rest@) == Seq::<Seq<char>>::empty());
        assert(lines(cs@) == slices(out@));
    }
    out
}

/// `cs` without its leading white space.
pub fn trim_front(cs: &[char]) -> (r: &[char])
    ensures
        r@ == trim_start(cs@),
{
    let mut r = cs;
    while r.len() > 0 && space(r[0])
        invariant
            trim_start(r@) == trim_start(cs@),
        decreases r@.len(),
    {
        r = &r[1..r.len()];
    }
    r
}

/// `cs` without its trailing white space.
pub fn trim_back(cs: &[char]) -> (r: &[char])
    ensures
        r@ == trim_end(cs@),
{
    let mut r = cs;
    while r.len() > 0 && space(r[r.len() - 1])
        invariant
            trim_end(r@) == trim_end(cs@),
        decreases r@.len(),
    {
        r = &r[0..r.len() - 1];
    }
    r
}

/// `cs` without white space at either end.
pub fn trim_both(cs: &[char]) -> (r: &[char])
    ensures
        r@ == trim(cs@),
{
    trim_back(trim_front(cs))
}

/// `cs` without its trailing `c`s.
pub fn trim_back_char(cs: &[char], c: char) -> (r: &[char])
    ensures
        r@ == trim_end_char(cs@, c),
{
    let mut r = cs;
    while r.len() > 0 && r[r.len() - 1] == c
        invariant
            trim_end_char(r@, c) == trim_end_char(cs@, c),
        decreases r@.len(),
    {
        r = &r[0..r.len() - 1];
    }
    r
}

/// The words of `cs`.
pub fn split_words(cs: &[char]) -> (out: Vec<&[char]>)
    ensures
        slices(out@) == words(cs@),
{
    let mut out: Vec<&[char]> = Vec::new();
    let mut rest = cs;
    while rest.len() > 0
        invariant
            words(cs@) == slices(out@) + words(rest@),
        decreases rest@.len(),
    {
        if space(rest[0]) {
            rest = &rest[1..rest.len()];
        } else {
            let ghost was = rest@;
            let ghost before = slices(out@);
            let mut k: usize = 1;
            while k < rest.len() && !space(rest[k])
                invariant
                    1 <= k <= rest@.len(),
                    forall|j: int| 0 <= j < k ==> !is_space(#[trigger] rest@[j]),
                decreases rest@.len() - k,
            {
                k += 1;
            }
            proof {
                lemma_word_len(rest@, k as int);
            }
            out.push(&rest[0..k]);
            rest = &rest[k..rest.len()];
            proof {
                assert(slices(out@) == before.push(was.take(k as int)));
                assert(words(cs@) == slices(out@) + words(rest@));
            }
        }
    }
    proof {
        assert(words(rest@) == Seq::<Seq<char>>::empty());
        assert(words(cs@) == slices(out@));
    }
    out
}

/// Whether `cs` begins with `p`.
pub fn has_prefix(cs: &[char], p: &str) -> (r: bool)
    ensures
        r == starts_with(cs@, p@),
{
    let d = chars_of(p);
    if d.len() > cs.len() {
        return false;
    }
    same_chars(&cs[0..d.len()], &d)
}

/// Whether `cs` ends with `p`.
pub fn has_suffix(cs: &[char], p: &str) -> (r: bool)
    ensures
        r == ends_with(cs@, p@),
{
    let d = chars_of(p);
    if d.len() > cs.len() {
        return false;
    }
    same_chars(&cs[cs.len() - d.len()..cs.len()], &d)
}

/// The position of the last `c` in `cs`.
pub fn rfind_char(cs: &[char], c: char) -> (r: Option<usize>)
    ensures
        match r {
            Some(k) => k == last_index(cs@, c) && k < cs@.len(),
            None => last_index(cs@, c) == -1,
        },
{
    let mut n: usize = cs.len();
    proof {
        assert(cs@.take(n as int) == cs@);
    }
    while n > 0
        invariant
            n <= cs@.len(),
            last_index(cs@, c) == last_index(cs@.take(n as int), c),
        decreases n,
    {
        proof {
            assert(cs@.take(n as int).last() == cs@[n - 1]);
            assert(cs@.take(n as int).drop_last() == cs@.take(n - 1));
        }
        if cs[n - 1] == c {
            return Some(n - 1);
        }
        n -= 1;
    }
    None
}

/// The position of the last white space in `cs`.
pub fn rfind_space(cs: &[char]) -> (r: Option<usize>)
    ensures
        match r {
            Some(k) => k == last_space(cs@) && k < cs@.len(),
            None => last_space(cs@) == -1,
        },
{
    let mut n: usize = cs.len();
    proof {
        assert(cs@.take(n as int) == cs@);
    }
    while n > 0
        invariant
            n <= cs@.len(),
            last_space(cs@) == last_space(cs@.take(n as int)),
        decreases n,
    {
        proof {
            assert(cs@.take(n as int).last() == cs@[n - 1]);
            assert(cs@.take(n as int).drop_last() == cs@.take(n - 1));
        }
        if space(cs[n - 1]) {
            return Some(n - 1);
        }
        n -= 1;
    }
    None
}

/// Whether `a` comes before `b` in dictionary order.
pub fn before(a: &str, b: &str) -> (r: bool)
    ensures
        r == text_lt(a@, b@),
{
    let x = chars_of(a);
    let y = chars_of(b);
    let mut i: usize = 0;
    proof {
        assert(a@.skip(0) == a@ && b@.skip(0) == b@);
    }
    while i < x.len() && i < y.len()
        invariant
            x@ == a@,
            y@ == b@,
            i <= x@.len(),
            i <= y@.len(),
            text_lt(a@, b@) == text_lt(a@.skip(i as int), b@.skip(i as int)),
        decreases x@.len() - i,
    {
        proof {
            assert(a@.skip(i as int).skip(1) == a@.skip(i + 1));
            assert(b@.skip(i as int).skip(1) == b@.skip(i + 1));
        }
        if x[i] != y[i] {
            return x[i] < y[i];
        }
        i += 1;
    }
    i < y.len()
}

/// The decimal form of `n`.
pub fn decimal_string(n: u64) -> (s: String)
    ensures
        s@ == decimal(n as nat),
    decreases n,
{
    let d = digit_char((n % 10) as u32);
    let mut s = if n < 10 {
        String::new()
    } else {
        decimal_string(n / 10)
    };
    s.push(d);
    proof {
        if n < 10 {
            assert(s@ == seq![digit(n as nat)]);
        }
    }
    s
}

/// The character of one decimal digit.
pub fn digit_char(d: u32) -> (c: char)
    requires
        d < 10,
    ensures
        c == digit(d as nat),
{
    match d {
        0 => '0',
        1 => '1',
        2 => '2',
        3 => '3',
        4 => '4',
        5 => '5',
        6 => '6',
        7 => '7',
        8 => '8',
        _ => '9',
    }
}

/// The last four octal digits of `n`.
pub fn octal4_string(n: u32) -> (s: String)
    ensures
        s@ == octal4(n as nat),
{
    let mut s = String::new();
    s.push(digit_char(n / 512 % 8));
    s.push(digit_char(n / 64 % 8));
    s.push(digit_char(n / 8 % 8));
    s.push(digit_char(n % 8));
    proof {
        assert(s@ == octal4(n as nat));
    }
    s
}

/// Whether `t` is one of `list`.
pub fn in_list(list: &[String], t: &str) -> (r: bool)
    ensures
        r == listed(views(list@), t@),
{
    let mut i: usize = 0;
    while i < list.len()
        invariant
            i <= list@.len(),
            forall|j: int| 0 <= j < i ==> views(list@)[j] != t@,
        decreases list@.len() - i,
    {
        if same(&list[i], t) {
            proof {
                assert(views(list@)[i as int] == t@);
            }
            return true;
        }
        i += 1;
    }
    false
}

/// The unsigned 32-bit number that `t` spells in decimal digits, if it fits.
pub fn parse_u32(t: &str) -> (r: Option<u32>)
    ensures
        r == u32_of(t@),
{
    let cs = chars_of(t);
    if cs.len() == 0 {
        return None;
    }
    let mut n: u64 = 0;
    let mut big = false;
    let mut i: usize = 0;
    while i < cs.len()
        invariant
            cs@ == t@,
            i <= cs@.len(),
            forall|j: int| 0 <= j < i ==> '0' <= #[trigger] t@[j] <= '9',
            !big ==> n == number(t@.take(i as int)) && n <= u32::MAX,
            big ==> number(t@.take(i as int)) > u32::MAX,
        decreases cs@.len() - i,
    {
        let c = cs[i];
        if !('0' <= c && c <= '9') {
            return None;
        }
        proof {
            let k = i as int;
            assert(t@.take(k + 1).drop_last() =~= t@.take(k));
            assert(t@.take(k + 1).last() == c);
        }
        if !big {
            n = n * 10 + (c as u64 - '0' as u64);
            if n > u32::MAX as u64 {
                big = true;
            }
        }
        i += 1;
    }
    proof {
        assert(t@.take(i as int) =~= t@);
    }
    if big {
        None
    } else {
        Some(n as u32)
    }
}

/// Whether `t` is one of the words of `list`.
pub fn in_words(list: &[&'static str], t: &str) -> (r: bool)
    ensures
        r == listed(str_views(list@), t@),
{
    let mut i: usize = 0;
    while i < list.len()
        invariant
            i <= list@.len(),
            forall|j: int| 0 <= j < i ==> str_views(list@)[j] != t@,
        decreases list@.len() - i,
    {
        if same(list[i], t) {
            proof {
                assert(str_views(list@)[i as int] == t@);
            }
            return true;
        }
        i += 1;
    }
    false
}

/// The strings of a list of words.
pub fn owned_words(list: &[&'static str]) -> (r: Vec<String>)
    ensures
        views(r@) == str_views(list@),
{
    let mut r: Vec<String> = Vec::new();
    let mut i: usize = 0;
    while i < list.len()
        invariant
            i <= list@.len(),
            views(r@) == str_views(list@).take(i as int),
        decreases list@.len() - i,
    {
        let ghost was = views(r@);
        r.push(list[i].to_owned());
        i += 1;
        proof {
            assert(views(r@) =~= was.push(list@[i - 1]@));
            assert(str_views(list@).take(i as int) =~= was.push(list@[i - 1]@));
        }
    }
    proof {
        assert(str_views(list@).take(i as int) =~= str_views(list@));
    }
    r
}

/// A copy of a list of strings.
pub fn copy_strings(v: &[String]) -> (r: Vec<String>)
    ensures
        views(r@) == views(v@),
{
    let mut r: Vec<String> = Vec::new();
    let mut i: usize = 0;
    while i < v.len()
        invariant
            i <= v@.len(),
            views(r@) == views(v@).take(i as int),
        decreases v@.len() - i,
    {
        let ghost was = views(r@);
        r.push(v[i].clone());
        i += 1;
        proof {
            assert(views(r@) =~= was.push(v@[i - 1]@));
            assert(views(v@).take(i as int) =~= was.push(v@[i - 1]@));
        }
    }
    proof {
        assert(views(v@).take(i as int) =~= views(v@));
    }
    r
}

/// `a` followed by `b`.
pub fn join2(a: &str, b: &str) -> (r: String)
    ensures
        r@ == a@ + b@,
{
    let mut r = a.to_owned();
    r.append(b);
    r
}

/// `a`, `b` and `c`, one after the other.
pub fn join3(a: &str, b: &str, c: &str) -> (r: String)
    ensures
        r@ == a@ + b@ + c@,
{
    let mut r = a.to_owned();
    r.append(b);
    r.append(c);
    r
}

// ---------------------------------------------------------------------------
// Laws
// ---------------------------------------------------------------------------

/// A number that is written in decimal is read back.
pub proof fn numbers_read_back(n: nat)
    ensures
        all_digits(decimal(n)),
        decimal(n).len() > 0,
        number(decimal(n)) == n,
    decreases n,
{
    if n < 10 {
        assert(decimal(n).drop_last() =~= Seq::<char>::empty());
        assert(number(decimal(n).drop_last()) == 0);
    } else {
        numbers_read_back(n / 10);
        assert(decimal(n).drop_last() =~= decimal(n / 10));
        assert forall|i: int| 0 <= i < decimal(n).len() implies '0' <= #[trigger] decimal(n)[i]
            <= '9' by {
            if i < decimal(n / 10).len() {
                assert(decimal(n)[i] == decimal(n / 10)[i]);
            }
        }
    }
}

/// The white space is the `White_Space` of Unicode: the six controls, the spaces, and the
/// line and paragraph separators, by their code points.
pub proof fn white_space_by_code_point(c: char)
    ensures
        is_space(c) <==> {
            let n = c as u32;
            ||| 9 <= n <= 13
            ||| n == 32
            ||| n == 133
            ||| n == 160
            ||| n == 5760
            ||| 8192 <= n <= 8202
            ||| n == 8232
            ||| n == 8233
            ||| n == 8239
            ||| n == 8287
            ||| n == 12288
        },
{
}

/// The first position of a character holds it, and none before does.
pub proof fn the_first_position(s: Seq<char>, c: char)
    ensures
        index_of(s, c) <= s.len(),
        index_of(s, c) < s.len() ==> s[index_of(s, c) as int] == c,
        forall|j: int| 0 <= j < index_of(s, c) ==> s[j] != c,
        s.contains(c) <==> index_of(s, c) < s.len(),
    decreases s.len(),
{
    if s.len() > 0 && s[0] != c {
        let rest = s.skip(1);
        the_first_position(rest, c);
        assert forall|j: int| 0 <= j < index_of(s, c) implies s[j] != c by {
            if j > 0 {
                assert(rest[j - 1] == s[j]);
            }
        }
        if index_of(s, c) < s.len() {
            assert(s[index_of(s, c) as int] == rest[index_of(rest, c) as int]);
        }
    }
    if s.contains(c) {
        let i = choose|i: int| 0 <= i < s.len() && s[i] == c;
        assert(s[i] == c);
    }
}

/// The last position of a character holds it, and none after does.
pub proof fn the_last_position(s: Seq<char>, c: char)
    ensures
        -1 <= last_index(s, c) < s.len(),
        last_index(s, c) >= 0 ==> s[last_index(s, c)] == c,
        forall|j: int| last_index(s, c) < j < s.len() ==> s[j] != c,
    decreases s.len(),
{
    if s.len() > 0 && s.last() != c {
        the_last_position(s.drop_last(), c);
        assert forall|j: int| last_index(s, c) < j < s.len() implies s[j] != c by {
            if j < s.len() - 1 {
                assert(s.drop_last()[j] == s[j]);
            }
        }
    }
}

/// The last position of white space holds some, and none after does.
pub proof fn the_last_white_space(s: Seq<char>)
    ensures
        -1 <= last_space(s) < s.len(),
        last_space(s) >= 0 ==> is_space(s[last_space(s)]),
        forall|j: int| last_space(s) < j < s.len() ==> !is_space(#[trigger] s[j]),
    decreases s.len(),
{
    if s.len() > 0 && !is_space(s.last()) {
        the_last_white_space(s.drop_last());
        assert forall|j: int| last_space(s) < j < s.len() implies !is_space(#[trigger] s[j]) by {
            if j < s.len() - 1 {
                assert(s.drop_last()[j] == s[j]);
            }
        }
    }
}

/// Pieces with a separator between each two.
pub open spec fn rejoined(pieces: Seq<Seq<char>>, sep: char) -> Seq<char>
    decreases pieces.len(),
{
    if pieces.len() == 0 {
        seq![]
    } else if pieces.len() == 1 {
        pieces[0]
    } else {
        pieces[0].push(sep) + rejoined(pieces.skip(1), sep)
    }
}

/// A text is split into at least one piece, no piece holds the separator, and with the
/// separator between them the pieces are the text again.
pub proof fn split_pieces_rejoin(s: Seq<char>, sep: char)
    ensures
        split_on(s, sep).len() > 0,
        rejoined(split_on(s, sep), sep) == s,
        forall|i: int|
            0 <= i < split_on(s, sep).len() ==> !(#[trigger] split_on(s, sep)[i]).contains(sep),
    decreases s.len(),
{
    the_first_position(s, sep);
    let i = index_of(s, sep) as int;
    if i < s.len() {
        let rest = s.skip(i + 1);
        split_pieces_rejoin(rest, sep);
        let all = split_on(s, sep);
        assert(all =~= seq![s.take(i)] + split_on(rest, sep));
        assert(all.skip(1) =~= split_on(rest, sep));
        assert(s.take(i).push(sep) + rest =~= s);
        assert forall|k: int| 0 <= k < all.len() implies !(#[trigger] all[k]).contains(sep) by {
            if k > 0 {
                assert(all[k] == split_on(rest, sep)[k - 1]);
            } else if all[0].contains(sep) {
                let j = choose|j: int| 0 <= j < s.take(i).len() && s.take(i)[j] == sep;
                assert(s[j] == sep);
            }
        }
    } else {
        assert(split_on(s, sep) =~= seq![s]);
    }
}

/// The lines of a text are its pieces between line feeds: what follows the last line feed
/// is a line only where it is not empty, and every other piece is one without a carriage
/// return at its end.
pub proof fn lines_are_the_pieces(s: Seq<char>)
    ensures
        ({
            let p = split_on(s, '\n');
            let l = lines(s);
            &&& p.last().len() == 0 ==> l.len() == p.len() - 1
            &&& p.last().len() > 0 ==> l.len() == p.len() && l.last() == p.last()
            &&& forall|i: int|
                0 <= i < p.len() - 1 ==> (#[trigger] l[i]) == (if p[i].len() > 0 && p[i].last()
                    == '\r' {
                    p[i].take(p[i].len() - 1)
                } else {
                    p[i]
                })
        }),
    decreases s.len(),
{
    the_first_position(s, '\n');
    let i = index_of(s, '\n') as int;
    let p = split_on(s, '\n');
    let l = lines(s);
    if s.len() == 0 {
        assert(p =~= seq![s]);
    } else if i >= s.len() {
        assert(p =~= seq![s]);
        assert(l =~= seq![s]);
    } else {
        let rest = s.skip(i + 1);
        lines_are_the_pieces(rest);
        split_pieces_rejoin(rest, '\n');
        let pr = split_on(rest, '\n');
        let lr = lines(rest);
        assert(p =~= seq![s.take(i)] + pr);
        assert(l =~= seq![drop_cr(s.take(i))] + lr);
        assert(p.last() == pr.last());
        if pr.last().len() > 0 {
            assert(l.last() == lr.last());
        }
        assert forall|k: int| 0 <= k < p.len() - 1 implies (#[trigger] l[k]) == (if p[k].len() > 0
            && p[k].last() == '\r' {
            p[k].take(p[k].len() - 1)
        } else {
            p[k]
        }) by {
            if k > 0 {
                assert(l[k] == lr[k - 1]);
                assert(p[k] == pr[k - 1]);
            } else {
                assert(p[0].drop_last() =~= p[0].take(p[0].len() - 1));
            }
        }
    }
}

/// Trimming the front takes off a run of white space, and all of it.
pub proof fn trimming_the_front(s: Seq<char>)
    ensures
        trim_start(s).len() <= s.len(),
        trim_start(s) == s.skip(s.len() - trim_start(s).len()),
        forall|i: int| 0 <= i < s.len() - trim_start(s).len() ==> is_space(#[trigger] s[i]),
        trim_start(s).len() > 0 ==> !is_space(trim_start(s)[0]),
    decreases s.len(),
{
    if s.len() > 0 && is_space(s[0]) {
        let rest = s.skip(1);
        trimming_the_front(rest);
        assert(trim_start(s) =~= s.skip(s.len() - trim_start(s).len()));
        assert forall|i: int| 0 <= i < s.len() - trim_start(s).len() implies is_space(
            #[trigger] s[i],
        ) by {
            if i > 0 {
                assert(rest[i - 1] == s[i]);
            }
        }
    } else {
        assert(s.skip(0) =~= s);
    }
}

/// Trimming the back takes off a run of white space, and all of it.
pub proof fn trimming_the_back(s: Seq<char>)
    ensures
        trim_end(s).len() <= s.len(),
        trim_end(s) == s.take(trim_end(s).len() as int),
        forall|i: int| trim_end(s).len() <= i < s.len() ==> is_space(#[trigger] s[i]),
        trim_end(s).len() > 0 ==> !is_space(trim_end(s).last()),
    decreases s.len(),
{
    if s.len() > 0 && is_space(s.last()) {
        let rest = s.drop_last();
        trimming_the_back(rest);
        assert(trim_end(s) =~= s.take(trim_end(s).len() as int));
        assert forall|i: int|
            trim_end(s).len() <= i < s.len() implies is_space(#[trigger] s[i]) by {
            if i < s.len() - 1 {
                assert(rest[i] == s[i]);
            }
        }
    } else {
        assert(s.take(s.len() as int) =~= s);
    }
}

/// Trimming both ends leaves what stands between the white space at either end.
pub proof fn trimming_both_ends(s: Seq<char>)
    ensures
        exists|i: int, j: int|
            #![trigger s.subrange(i, j)]
            {
                &&& 0 <= i <= j <= s.len()
                &&& trim(s) == s.subrange(i, j)
                &&& forall|k: int| 0 <= k < i || j <= k < s.len() ==> is_space(#[trigger] s[k])
            },
        trim(s).len() > 0 ==> !is_space(trim(s)[0]) && !is_space(trim(s).last()),
{
    let m = trim_start(s);
    trimming_the_front(s);
    trimming_the_back(m);
    let i = s.len() - m.len();
    let j = i + trim(s).len();
    assert(trim(s) =~= s.subrange(i, j));
    assert forall|k: int| 0 <= k < i || j <= k < s.len() implies is_space(#[trigger] s[k]) by {
        if k >= j {
            assert(m[k - i] == s[k]);
        }
    }
    if trim(s).len() > 0 {
        assert(trim(s)[0] == m[0]);
    }
}

/// Trimming a character takes off a run of it at the end, and all of it.
pub proof fn trimming_a_character(s: Seq<char>, c: char)
    ensures
        trim_end_char(s, c).len() <= s.len(),
        trim_end_char(s, c) == s.take(trim_end_char(s, c).len() as int),
        forall|i: int| trim_end_char(s, c).len() <= i < s.len() ==> s[i] == c,
        trim_end_char(s, c).len() > 0 ==> trim_end_char(s, c).last() != c,
    decreases s.len(),
{
    if s.len() > 0 && s.last() == c {
        let rest = s.drop_last();
        trimming_a_character(rest, c);
        assert(trim_end_char(s, c) =~= s.take(trim_end_char(s, c).len() as int));
        assert forall|i: int| trim_end_char(s, c).len() <= i < s.len() implies s[i] == c by {
            if i < s.len() - 1 {
                assert(rest[i] == s[i]);
            }
        }
    } else {
        assert(s.take(s.len() as int) =~= s);
    }
}

/// The leading word reaches up to the first white space.
pub proof fn the_leading_word(s: Seq<char>)
    ensures
        word_len(s) <= s.len(),
        forall|i: int| 0 <= i < word_len(s) ==> !is_space(#[trigger] s[i]),
        word_len(s) < s.len() ==> is_space(s[word_len(s) as int]),
    decreases s.len(),
{
    if s.len() > 0 && !is_space(s[0]) {
        let rest = s.skip(1);
        the_leading_word(rest);
        assert forall|i: int| 0 <= i < word_len(s) implies !is_space(#[trigger] s[i]) by {
            if i > 0 {
                assert(rest[i - 1] == s[i]);
            }
        }
        if word_len(s) < s.len() {
            assert(rest[word_len(rest) as int] == s[word_len(s) as int]);
        }
    }
}

/// The empty text has no words, a text without white space that is not empty is one word,
/// and white space anywhere parts the words before it from those after it.
pub proof fn words_are_parted_by_white_space(a: Seq<char>, c: char, b: Seq<char>)
    requires
        is_space(c),
    ensures
        words(Seq::<char>::empty()).len() == 0,
        a.len() > 0 && (forall|i: int| 0 <= i < a.len() ==> !is_space(#[trigger] a[i])) ==> words(a)
            == seq![a],
        words(a.push(c) + b) == words(a) + words(b),
    decreases a.len(),
{
    let s = a.push(c) + b;
    if a.len() > 0 && (forall|i: int| 0 <= i < a.len() ==> !is_space(#[trigger] a[i])) {
        lemma_word_len(a, a.len() as int);
        assert(a.take(a.len() as int) =~= a);
        assert(words(a.skip(a.len() as int)) =~= seq![]);
        assert(words(a) =~= seq![a]);
    }
    if a.len() == 0 {
        assert(s[0] == c);
        assert(s.skip(1) =~= b);
        assert(words(a) + words(b) =~= words(b));
    } else if is_space(a[0]) {
        assert(s[0] == a[0]);
        words_are_parted_by_white_space(a.skip(1), c, b);
        assert(s.skip(1) =~= a.skip(1).push(c) + b);
    } else {
        the_leading_word(a);
        let k = word_len(a) as int;
        assert(k > 0) by {
            assert(!is_space(a[0]));
        }
        assert forall|j: int| 0 <= j < k implies !is_space(#[trigger] s[j]) by {
            assert(s[j] == a[j]);
        }
        assert(is_space(s[k])) by {
            if k < a.len() {
                assert(s[k] == a[k]);
            }
        }
        lemma_word_len(s, k);
        assert(s.take(k) =~= a.take(k));
        words_are_parted_by_white_space(a.skip(k), c, b);
        assert(s.skip(k) =~= a.skip(k).push(c) + b);
        assert(words(s) =~= seq![a.take(k)] + words(s.skip(k)));
        assert(words(a) =~= seq![a.take(k)] + words(a.skip(k)));
        assert(words(a) + words(b) =~= words(s));
    }
}

/// The first word is the first run of characters that are not white space; there is none
/// where all is white space.
pub proof fn the_first_word(s: Seq<char>)
    ensures
        match first_word(s) {
            None => forall|i: int| 0 <= i < s.len() ==> is_space(#[trigger] s[i]),
            Some(w) => exists|i: int, j: int|
                #![trigger s.subrange(i, j)]
                {
                    &&& 0 <= i < j <= s.len()
                    &&& w == s.subrange(i, j)
                    &&& forall|k: int| 0 <= k < i ==> is_space(#[trigger] s[k])
                    &&& forall|k: int| i <= k < j ==> !is_space(#[trigger] s[k])
                    &&& j < s.len() ==> is_space(s[j])
                },
        },
    decreases s.len(),
{
    if s.len() > 0 {
        if is_space(s[0]) {
            let rest = s.skip(1);
            the_first_word(rest);
            match first_word(rest) {
                None => {
                    assert forall|i: int| 0 <= i < s.len() implies is_space(#[trigger] s[i]) by {
                        if i > 0 {
                            assert(rest[i - 1] == s[i]);
                        }
                    }
                },
                Some(w) => {
                    let (i, j) = choose|i: int, j: int|
                        #![trigger rest.subrange(i, j)]
                        {
                            &&& 0 <= i < j <= rest.len()
                            &&& w == rest.subrange(i, j)
                            &&& forall|k: int| 0 <= k < i ==> is_space(#[trigger] rest[k])
                            &&& forall|k: int| i <= k < j ==> !is_space(#[trigger] rest[k])
                            &&& j < rest.len() ==> is_space(rest[j])
                        };
                    assert(w =~= s.subrange(i + 1, j + 1));
                    assert forall|k: int| 0 <= k < i + 1 implies is_space(#[trigger] s[k]) by {
                        if k > 0 {
                            assert(rest[k - 1] == s[k]);
                        }
                    }
                    assert forall|k: int| i + 1 <= k < j + 1 implies !is_space(#[trigger] s[k]) by {
                        assert(rest[k - 1] == s[k]);
                    }
                },
            }
        } else {
            the_leading_word(s);
            let k = word_len(s) as int;
            assert(s.take(k) =~= s.subrange(0, k));
            assert(words(s)[0] == s.take(k));
        }
    }
}

/// A text starts with its prefixes, ends with its suffixes, and with nothing else; and
/// taking off a suffix undoes adding it.
pub proof fn prefixes_and_suffixes(s: Seq<char>, p: Seq<char>)
    ensures
        starts_with(p + s, p),
        ends_with(s + p, p),
        starts_with(s, p) ==> exists|t: Seq<char>| s == #[trigger] (p + t),
        ends_with(s, p) ==> exists|t: Seq<char>| s == #[trigger] (t + p),
        without_suffix(s + p, p) == s,
        ends_with(s, p) ==> without_suffix(s, p) + p == s,
        !ends_with(s, p) ==> without_suffix(s, p) == s,
{
    assert((p + s).take(p.len() as int) =~= p);
    assert((s + p).skip(s.len() as int) =~= p);
    assert((s + p).take(s.len() as int) =~= s);
    if starts_with(s, p) {
        assert(s =~= p + s.skip(p.len() as int));
    }
    if ends_with(s, p) {
        assert(s =~= s.take(s.len() - p.len()) + p);
    }
}

/// One text comes before another where, at the first place in which they differ, it ends
/// or has the smaller character.
pub proof fn the_first_difference_decides(a: Seq<char>, b: Seq<char>)
    ensures
        text_lt(a, b) <==> exists|k: int|
            #![trigger a.take(k)]
            {
                &&& 0 <= k <= a.len()
                &&& k < b.len()
                &&& a.take(k) == b.take(k)
                &&& k == a.len() || a[k] < b[k]
            },
    decreases a.len(),
{
    if b.len() > 0 {
        if a.len() == 0 {
            assert(a.take(0) =~= b.take(0));
        } else if a[0] != b[0] {
            if a[0] < b[0] {
                assert(a.take(0) =~= b.take(0));
            } else {
                assert forall|k: int|
                    #![trigger a.take(k)]
                    0 <= k <= a.len() && k < b.len() && a.take(k) == b.take(k) implies !(k
                    == a.len() || a[k] < b[k]) by {
                    if k > 0 {
                        assert(a.take(k)[0] == b.take(k)[0]);
                    }
                }
            }
        } else {
            let ra = a.skip(1);
            let rb = b.skip(1);
            the_first_difference_decides(ra, rb);
            if text_lt(ra, rb) {
                let k = choose|k: int|
                    #![trigger ra.take(k)]
                    {
                        &&& 0 <= k <= ra.len()
                        &&& k < rb.len()
                        &&& ra.take(k) == rb.take(k)
                        &&& k == ra.len() || ra[k] < rb[k]
                    };
                assert forall|i: int| 0 <= i < k + 1 implies a[i] == b[i] by {
                    if i > 0 {
                        assert(ra.take(k)[i - 1] == rb.take(k)[i - 1]);
                    }
                }
                assert(a.take(k + 1) =~= b.take(k + 1));
            }
            if exists|k: int|
                #![trigger a.take(k)]
                {
                    &&& 0 <= k <= a.len()
                    &&& k < b.len()
                    &&& a.take(k) == b.take(k)
                    &&& k == a.len() || a[k] < b[k]
                } {
                let k = choose|k: int|
                    #![trigger a.take(k)]
                    {
                        &&& 0 <= k <= a.len()
                        &&& k < b.len()
                        &&& a.take(k) == b.take(k)
                        &&& k == a.len() || a[k] < b[k]
                    };
                assert(k > 0);
                assert forall|i: int| 0 <= i < k - 1 implies ra[i] == rb[i] by {
                    assert(a.take(k)[i + 1] == b.take(k)[i + 1]);
                }
                assert(ra.take(k - 1) =~= rb.take(k - 1));
            }
        }
    }
}

/// A run of digits spells ten times what stands before its last digit, and that digit; a
/// 32-bit number is read from any run of digits that is not empty and spells no more than
/// fits, and from nothing else. Written numbers have no leading zero and a sign where they
/// are negative.
pub proof fn numbers_are_positional(t: Seq<char>, d: char, n: nat)
    requires
        '0' <= d <= '9',
    ensures
        number(Seq::<char>::empty()) == 0,
        number(t.push(d)) == 10 * number(t) + (d as int - 48),
        u32_of(t) is Some <==> t.len() > 0 && number(t) < 0x1_0000_0000 && forall|i: int|
            0 <= i < t.len() ==> 48 <= #[trigger] t[i] as int <= 57,
        u32_of(t) matches Some(v) ==> v == number(t),
        n > 0 ==> decimal(n)[0] != '0',
        decimal(0) == seq!['0'],
        signed(n as int) == decimal(n),
        n > 0 ==> signed(-(n as int)) == seq!['-'] + decimal(n),
    decreases n,
{
    reveal_strlit("-");
    assert(t.push(d).drop_last() =~= t);
    assert("-"@ =~= seq!['-']);
    if n >= 10 {
        numbers_are_positional(t, d, n / 10);
        numbers_read_back(n / 10);
    }
}

/// The four octal digits are digits of base eight, and spell what is left of a number
/// modulo eight to the fourth.
pub proof fn four_octal_digits(n: nat)
    ensures
        octal4(n).len() == 4,
        forall|i: int| 0 <= i < 4 ==> '0' <= #[trigger] octal4(n)[i] <= '7',
        512 * (octal4(n)[0] as int - 48) + 64 * (octal4(n)[1] as int - 48)
            + 8 * (octal4(n)[2] as int
            - 48) + (octal4(n)[3] as int - 48) == n % 4096,
{
    let q = n / 8;
    let r = q / 8;
    let t = r / 8;
    let u = t / 8;
    let a = t % 8;
    let b = r % 8;
    let c = q % 8;
    let d = n % 8;
    assert(n / 64 == r && n / 512 == t);
    assert(octal4(n) =~= seq![digit(a), digit(b), digit(c), digit(d)]);
    assert(digit(a) as int == 48 + a && digit(b) as int == 48 + b && digit(c) as int == 48 + c
        && digit(d) as int == 48 + d);
    assert(n == 4096 * u + (512 * a + 64 * b + 8 * c + d));
    assert(n % 4096 == 512 * a + 64 * b + 8 * c + d);
}

/// A text is listed where the list contains it.
pub proof fn listed_is_contained(list: Seq<Seq<char>>, t: Seq<char>)
    ensures
        listed(list, t) <==> list.contains(t),
{
}

/// What has no white space at either end is trimmed already.
pub proof fn lemma_trimmed(s: Seq<char>)
    requires
        s.len() > 0,
        !is_space(s[0]),
        !is_space(s.last()),
    ensures
        trim(s) == s,
{
    trimming_both_ends(s);
    let (i, j) = choose|i: int, j: int|
        #![trigger s.subrange(i, j)]
        {
            &&& 0 <= i <= j <= s.len()
            &&& trim(s) == s.subrange(i, j)
            &&& forall|k: int| 0 <= k < i || j <= k < s.len() ==> is_space(#[trigger] s[k])
        };
    if i > 0 {
        assert(is_space(s[0]));
    }
    if j < s.len() {
        assert(is_space(s[s.len() - 1]));
    }
    assert(s.subrange(0, s.len() as int) =~= s);
}

/// What has no white space at its end stays as it is, and a space behind it is trimmed.
pub proof fn lemma_end_trimmed(s: Seq<char>)
    requires
        s.len() > 0,
        !is_space(s.last()),
    ensures
        trim_end(s) == s,
        trim_end(s.push(' ')) == s,
{
    trimming_the_back(s);
    if trim_end(s).len() < s.len() {
        assert(is_space(s[s.len() - 1]));
    }
    assert(s.take(s.len() as int) =~= s);
    let t = s.push(' ');
    trimming_the_back(t);
    white_space_by_code_point(' ');
    let n = trim_end(t).len() as int;
    if n < s.len() {
        assert(is_space(t[s.len() - 1]));
        assert(t[s.len() - 1] == s.last());
    }
    if n == t.len() {
        assert(trim_end(t).last() == t.last());
    }
    assert(t.take(s.len() as int) =~= s);
}

/// The last white space stands where no other follows.
pub proof fn lemma_last_space(s: Seq<char>, k: int)
    requires
        0 <= k < s.len(),
        is_space(s[k]),
        forall|j: int| k < j < s.len() ==> !is_space(#[trigger] s[j]),
    ensures
        last_space(s) == k,
{
    the_last_white_space(s);
}

} // verus!
