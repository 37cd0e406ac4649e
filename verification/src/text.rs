//! Character-level text operations on the views of `str` and `String`
//! (sequences of `char`), each with the mathematical definition it computes.
use vstd::prelude::*;
use vstd::utf8::{encode_scalar, encode_utf8};

verus! {

broadcast use vstd::string::group_string_axioms;

// ---------------------------------------------------------------------------
// Definitions
// ---------------------------------------------------------------------------

/// Unicode `White_Space`, the set of characters that `char::is_whitespace`
/// accepts and that `str::trim*` removes.
pub open spec fn is_whitespace(c: char) -> bool {
    let v = c as u32;
    ||| 0x9 <= v <= 0xd
    ||| v == 0x20
    ||| v == 0x85
    ||| v == 0xa0
    ||| v == 0x1680
    ||| 0x2000 <= v <= 0x200a
    ||| v == 0x2028
    ||| v == 0x2029
    ||| v == 0x202f
    ||| v == 0x205f
    ||| v == 0x3000
}

/// `s` without its trailing whitespace.
pub open spec fn trim_end(s: Seq<char>) -> Seq<char>
    decreases s.len(),
{
    if s.len() > 0 && is_whitespace(s.last()) {
        trim_end(s.drop_last())
    } else {
        s
    }
}

/// `s` without its leading whitespace.
pub open spec fn trim_start(s: Seq<char>) -> Seq<char>
    decreases s.len(),
{
    if s.len() > 0 && is_whitespace(s.first()) {
        trim_start(s.drop_first())
    } else {
        s
    }
}

/// Every character of `s` is whitespace (so trimming it leaves nothing).
pub open spec fn is_blank(s: Seq<char>) -> bool {
    forall|i: int| 0 <= i < s.len() ==> is_whitespace(#[trigger] s[i])
}

/// The part of `s` before its first line break (all of `s` when it has none).
pub open spec fn first_line(s: Seq<char>) -> Seq<char>
    decreases s.len(),
{
    if s.len() == 0 || s.first() == '\n' {
        Seq::empty()
    } else {
        seq![s.first()] + first_line(s.drop_first())
    }
}

/// `text` without `prefix` when it starts with it, else `text` itself.
pub open spec fn strip_prefix_or_keep(text: Seq<char>, prefix: Seq<char>) -> Seq<char> {
    if prefix.is_prefix_of(text) {
        text.skip(prefix.len() as int)
    } else {
        text
    }
}

/// The ASCII digit for `d < 10`.
pub open spec fn digit_char(d: nat) -> char {
    ((48 + d) as u8) as char
}

/// The decimal representation of `n`, without leading zeros.
pub open spec fn decimal(n: nat) -> Seq<char>
    decreases n,
{
    if n < 10 {
        seq![digit_char(n)]
    } else {
        decimal(n / 10).push(digit_char(n % 10))
    }
}

/// `n` spaces.
pub open spec fn spaces(n: nat) -> Seq<char> {
    Seq::new(n, |i: int| ' ')
}

/// `s` right-aligned in a field of `width` characters: padded on the left
/// with spaces, and left as it is when it is already that wide.
pub open spec fn pad_left(s: Seq<char>, width: nat) -> Seq<char> {
    if s.len() >= width {
        s
    } else {
        spaces((width - s.len()) as nat) + s
    }
}

/// The number of bytes of the UTF-8 encoding of `c`.
pub open spec fn utf8_width(c: char) -> nat {
    let v = c as u32;
    if v <= 0x7f {
        1
    } else if v <= 0x7ff {
        2
    } else if v <= 0xffff {
        3
    } else {
        4
    }
}

/// The number of UTF-16 code units that encode `c`.
pub open spec fn utf16_width(c: char) -> nat {
    if (c as u32) <= 0xffff {
        1
    } else {
        2
    }
}

/// The number of UTF-16 code units that encode `s`.
pub open spec fn utf16_len(s: Seq<char>) -> nat
    decreases s.len(),
{
    if s.len() == 0 {
        0
    } else {
        utf16_width(s.first()) + utf16_len(s.drop_first())
    }
}

// ---------------------------------------------------------------------------
// Lemmas
// ---------------------------------------------------------------------------

proof fn lemma_first_line_at(s: Seq<char>, k: int)
    requires
        0 <= k <= s.len(),
        forall|i: int| 0 <= i < k ==> s[i] != '\n',
        k == s.len() || s[k] == '\n',
    ensures
        first_line(s) == s.take(k),
    decreases k,
{
    if k == 0 {
        assert(s.take(0) =~= Seq::<char>::empty());
    } else {
        let t = s.drop_first();
        assert forall|i: int| 0 <= i < k - 1 implies t[i] != '\n' by {
            assert(t[i] == s[i + 1]);
        }
        lemma_first_line_at(t, k - 1);
        assert(seq![s.first()] + t.take(k - 1) =~= s.take(k));
    }
}

/// `first_line` is the prefix of its argument that holds no line break
/// and stops at the first one (or runs to the end when there is none).
pub proof fn lemma_first_line_shape(s: Seq<char>)
    ensures
        first_line(s).is_prefix_of(s),
        !first_line(s).contains('\n'),
        first_line(s).len() == s.len() || s[first_line(s).len() as int] == '\n',
    decreases s.len(),
{
    if s.len() == 0 || s.first() == '\n' {
        assert(first_line(s) =~= Seq::<char>::empty());
    } else {
        let t = s.drop_first();
        lemma_first_line_shape(t);
        let r = first_line(s);
        assert(r =~= seq![s.first()] + first_line(t));
        assert(r =~= s.subrange(0, r.len() as int));
        if first_line(t).len() < t.len() {
            assert(s[r.len() as int] == t[first_line(t).len() as int]);
        }
        if r.contains('\n') {
            let i = choose|i: int| 0 <= i < r.len() && r[i] == '\n';
            if i > 0 {
                assert(first_line(t)[i - 1] == '\n');
            }
        }
    }
}

/// Trimming the end leaves a prefix that is empty or ends in a non-space.
pub proof fn lemma_trim_end_shape(s: Seq<char>)
    ensures
        trim_end(s).is_prefix_of(s),
        trim_end(s).len() == 0 || !is_whitespace(trim_end(s).last()),
        is_blank(s.skip(trim_end(s).len() as int)),
    decreases s.len(),
{
    if s.len() > 0 && is_whitespace(s.last()) {
        let t = s.drop_last();
        lemma_trim_end_shape(t);
        let r = trim_end(t);
        assert(r =~= s.subrange(0, r.len() as int));
        assert forall|i: int| 0 <= i < s.skip(r.len() as int).len() implies is_whitespace(
            #[trigger] s.skip(r.len() as int)[i],
        ) by {
            if r.len() + i < t.len() {
                assert(s.skip(r.len() as int)[i] == t.skip(r.len() as int)[i]);
            }
        }
    } else {
        assert(s =~= s.subrange(0, s.len() as int));
        assert(s.skip(s.len() as int) =~= Seq::<char>::empty());
    }
}

/// Trimming the start leaves a suffix that is empty or starts with a non-space.
pub proof fn lemma_trim_start_shape(s: Seq<char>)
    ensures
        trim_start(s).is_suffix_of(s),
        trim_start(s).len() == 0 || !is_whitespace(trim_start(s).first()),
        is_blank(s.take(s.len() - trim_start(s).len())),
    decreases s.len(),
{
    if s.len() > 0 && is_whitespace(s.first()) {
        let t = s.drop_first();
        lemma_trim_start_shape(t);
        let r = trim_start(t);
        assert(r =~= s.subrange(s.len() - r.len(), s.len() as int));
        assert forall|i: int| 0 <= i < s.take(s.len() - r.len()).len() implies is_whitespace(
            #[trigger] s.take(s.len() - r.len())[i],
        ) by {
            if i > 0 {
                assert(s.take(s.len() - r.len())[i] == t.take(t.len() - r.len())[i - 1]);
            }
        }
    } else {
        assert(s =~= s.subrange(0, s.len() as int));
        assert(s.take(0) =~= Seq::<char>::empty());
    }
}

/// A whitespace-only text trims to nothing, and only such a text does.
pub proof fn law_blank_iff_trims_to_empty(s: Seq<char>)
    ensures
        is_blank(s) <==> trim_end(s).len() == 0,
        is_blank(s) <==> trim_start(s).len() == 0,
    decreases s.len(),
{
    lemma_trim_end_shape(s);
    lemma_trim_start_shape(s);
    if trim_end(s).len() != 0 {
        let r = trim_end(s);
        assert(s[r.len() - 1] == r.last());
    }
    if trim_start(s).len() != 0 {
        let r = trim_start(s);
        assert(s[s.len() - r.len()] == r.first());
    }
    if trim_end(s).len() == 0 {
        assert(s.skip(0) =~= s);
    }
    if trim_start(s).len() == 0 {
        assert(s.take(s.len() as int) =~= s);
    }
}

/// Padding puts spaces, and only spaces, in front of the text, up to the
/// width; a text as wide as that or wider is left as it is.
pub proof fn law_pad_left_layout(s: Seq<char>, width: nat)
    ensures
        pad_left(s, width).len() == if s.len() < width { width } else { s.len() },
        pad_left(s, width).skip(pad_left(s, width).len() - s.len()) == s,
        forall|i: int|
            0 <= i < pad_left(s, width).len() - s.len() ==> #[trigger] pad_left(s, width)[i] == ' ',
{
    let p = pad_left(s, width);
    assert(p.skip(p.len() - s.len()) =~= s);
}

/// The decimal form of a number has no leading zero, and is `0` only for
/// zero.
pub proof fn law_decimal_no_leading_zero(n: nat)
    ensures
        decimal(n).len() >= 1,
        decimal(n).len() > 1 ==> decimal(n)[0] != '0',
        n < 10 <==> decimal(n).len() == 1,
    decreases n,
{
    if n >= 10 {
        law_decimal_no_leading_zero(n / 10);
        assert(decimal(n)[0] == decimal(n / 10)[0]);
        if n / 10 < 10 {
            assert(digit_char(n / 10) as u32 == 48 + n / 10);
        }
    }
}

/// Stripping a prefix that the text starts with leaves what follows it;
/// any other text is kept whole.
pub proof fn law_strip_prefix(text: Seq<char>, prefix: Seq<char>)
    ensures
        prefix.is_prefix_of(text) ==> prefix + strip_prefix_or_keep(text, prefix) == text,
        !prefix.is_prefix_of(text) ==> strip_prefix_or_keep(text, prefix) == text,
{
    if prefix.is_prefix_of(text) {
        assert(prefix + text.skip(prefix.len() as int) =~= text);
    }
}

proof fn lemma_utf16_len_push(s: Seq<char>, c: char)
    ensures
        utf16_len(s.push(c)) == utf16_len(s) + utf16_width(c),
    decreases s.len(),
{
    assert(s.push(c).first() == if s.len() == 0 { c } else { s.first() });
    if s.len() == 0 {
        assert(s.push(c).drop_first() =~= Seq::<char>::empty());
        assert(utf16_len(Seq::<char>::empty()) == 0);
    } else {
        lemma_utf16_len_push(s.drop_first(), c);
        assert(s.push(c).drop_first() =~= s.drop_first().push(c));
    }
}

proof fn lemma_encode_scalar_len(c: char)
    ensures
        encode_scalar(c as u32).len() == utf8_width(c),
{
    broadcast use vstd::utf8::char_is_scalar;

}

/// A character takes two UTF-16 code units (a surrogate pair) exactly when
/// it lies beyond the Basic Multilingual Plane, which is exactly when its
/// UTF-8 encoding takes four bytes; every other character takes one unit.
/// The UTF-16 length of a text is the sum over its characters.
pub proof fn law_utf16_units(c: char, a: Seq<char>, b: Seq<char>)
    ensures
        utf16_width(c) == 2 <==> (c as u32) >= 0x10000,
        utf16_width(c) == 2 <==> encode_scalar(c as u32).len() == 4,
        utf16_width(c) == 1 || utf16_width(c) == 2,
        utf16_len(seq![c]) == utf16_width(c),
        utf16_len(a + b) == utf16_len(a) + utf16_len(b),
    decreases a.len(),
{
    lemma_encode_scalar_len(c);
    assert(seq![c].drop_first() =~= Seq::<char>::empty());
    assert(utf16_len(Seq::<char>::empty()) == 0);
    assert(seq![c].first() == c);
    if a.len() > 0 {
        law_utf16_units(c, a.drop_first(), b);
        assert((a + b).drop_first() =~= a.drop_first() + b);
    } else {
        assert(a + b =~= b);
    }
}

proof fn lemma_encode_utf8_push(s: Seq<char>, c: char)
    ensures
        encode_utf8(s.push(c)) == encode_utf8(s) + encode_scalar(c as u32),
    decreases s.len(),
{
    if s.len() == 0 {
        assert(s.push(c).drop_first() =~= Seq::<char>::empty());
        assert(encode_utf8(s.push(c).drop_first()) =~= Seq::<u8>::empty());
        assert(encode_utf8(s.push(c)) =~= encode_scalar(c as u32));
        assert(encode_utf8(s) =~= Seq::<u8>::empty());
    } else {
        lemma_encode_utf8_push(s.drop_first(), c);
        assert(s.push(c).drop_first() =~= s.drop_first().push(c));
        assert(encode_utf8(s.push(c)) =~= encode_utf8(s) + encode_scalar(c as u32));
    }
}

/// The UTF-8 length of a prefix grows with the prefix.
proof fn lemma_encode_utf8_take_len(s: Seq<char>, i: int, j: int)
    requires
        0 <= i <= j <= s.len(),
    ensures
        encode_utf8(s.take(i)).len() <= encode_utf8(s.take(j)).len(),
    decreases j - i,
{
    if i < j {
        lemma_encode_utf8_take_len(s, i, j - 1);
        assert(s.take(j) =~= s.take(j - 1).push(s[j - 1]));
        lemma_encode_utf8_push(s.take(j - 1), s[j - 1]);
    }
}

// ---------------------------------------------------------------------------
// Executable operations
// ---------------------------------------------------------------------------

/// `String::push`: appends one character.
#[verifier::external_body]
fn push_char(s: &mut String, c: char)
    ensures
        final(s)@ == old(s)@.push(c),
{
    s.push(c);
}

/// The characters of `s`, in order.
pub fn chars_of(s: &str) -> (res: Vec<char>)
    ensures
        res@ == s@,
{
    let mut res: Vec<char> = Vec::new();
    for c in iter: s.chars()
        invariant
            res@ == iter.seq().take(iter.index() as int),
    {
        res.push(c);
    }
    assert(res@ =~= s@);
    res
}

/// The string made of `chars[start..end]`.
pub fn string_from_chars(chars: &Vec<char>, start: usize, end: usize) -> (res: String)
    requires
        start <= end <= chars.len(),
    ensures
        res@ == chars@.subrange(start as int, end as int),
{
    let mut res = String::new();
    let mut i = start;
    while i < end
        invariant
            start <= i <= end <= chars.len(),
            res@ == chars@.subrange(start as int, i as int),
        decreases end - i,
    {
        push_char(&mut res, chars[i]);
        assert(chars@.subrange(start as int, i + 1) =~= chars@.subrange(start as int, i as int).push(
            chars@[i as int],
        ));
        i = i + 1;
    }
    res
}

/// Appends the characters of `s` to `out`.
pub fn append_str(out: &mut Vec<char>, s: &str)
    ensures
        final(out)@ == old(out)@ + s@,
{
    let cs = chars_of(s);
    let mut i: usize = 0;
    while i < cs.len()
        invariant
            0 <= i <= cs.len(),
            cs@ == s@,
            out@ == old(out)@ + cs@.take(i as int),
        decreases cs.len() - i,
    {
        out.push(cs[i]);
        assert(cs@.take(i + 1) =~= cs@.take(i as int).push(cs@[i as int]));
        i = i + 1;
    }
    assert(cs@.take(cs.len() as int) =~= cs@);
}

/// `a` followed by `b` (`format!("{a}{b}")`).
pub fn concat_str(a: &str, b: &str) -> (res: String)
    ensures
        res@ == a@ + b@,
{
    let mut cs = chars_of(a);
    append_str(&mut cs, b);
    assert(cs@.subrange(0, cs.len() as int) =~= cs@);
    string_from_chars(&cs, 0, cs.len())
}

/// `char::is_whitespace`, by the Unicode `White_Space` table.
pub fn is_whitespace_char(c: char) -> (res: bool)
    ensures
        res == is_whitespace(c),
{
    let v = c as u32;
    (0x9 <= v && v <= 0xd) || v == 0x20 || v == 0x85 || v == 0xa0 || v == 0x1680 || (0x2000 <= v
        && v <= 0x200a) || v == 0x2028 || v == 0x2029 || v == 0x202f || v == 0x205f || v == 0x3000
}

/// `str::trim_end`: `s` without trailing whitespace.
pub fn trim_end_str(s: &str) -> (res: String)
    ensures
        res@ == trim_end(s@),
{
    let cs = chars_of(s);
    let mut k = cs.len();
    assert(cs@.take(k as int) =~= cs@);
    while k > 0 && is_whitespace_char(cs[k - 1])
        invariant
            k <= cs.len(),
            trim_end(cs@.take(k as int)) == trim_end(cs@),
        decreases k,
    {
        assert(cs@.take(k as int).drop_last() =~= cs@.take(k - 1));
        k = k - 1;
    }
    assert(cs@.take(k as int) =~= cs@.subrange(0, k as int));
    assert(trim_end(cs@.take(k as int)) == cs@.take(k as int));
    string_from_chars(&cs, 0, k)
}

/// `str::trim_start`: `s` without leading whitespace.
pub fn trim_start_str(s: &str) -> (res: String)
    ensures
        res@ == trim_start(s@),
{
    let cs = chars_of(s);
    let mut k: usize = 0;
    assert(cs@.skip(0) =~= cs@);
    while k < cs.len() && is_whitespace_char(cs[k])
        invariant
            k <= cs.len(),
            trim_start(cs@.skip(k as int)) == trim_start(cs@),
        decreases cs.len() - k,
    {
        assert(cs@.skip(k as int).drop_first() =~= cs@.skip(k + 1));
        k = k + 1;
    }
    assert(cs@.skip(k as int) =~= cs@.subrange(k as int, cs.len() as int));
    assert(trim_start(cs@.skip(k as int)) == cs@.skip(k as int));
    string_from_chars(&cs, k, cs.len())
}

/// `s.trim().is_empty()`: whether `s` holds nothing but whitespace.
pub fn is_blank_str(s: &str) -> (res: bool)
    ensures
        res == is_blank(s@),
{
    let cs = chars_of(s);
    let mut i: usize = 0;
    while i < cs.len()
        invariant
            i <= cs.len(),
            cs@ == s@,
            forall|j: int| 0 <= j < i ==> is_whitespace(#[trigger] cs@[j]),
        decreases cs.len() - i,
    {
        if !is_whitespace_char(cs[i]) {
            return false;
        }
        i = i + 1;
    }
    true
}

/// The first line of `s`: what `s.split_once('\n')` puts on the left,
/// or all of `s` when it holds no line break.
pub fn first_line_str(s: &str) -> (res: String)
    ensures
        res@ == first_line(s@),
{
    let cs = chars_of(s);
    let mut k: usize = 0;
    while k < cs.len() && cs[k] != '\n'
        invariant
            k <= cs.len(),
            forall|i: int| 0 <= i < k ==> cs@[i] != '\n',
        decreases cs.len() - k,
    {
        k = k + 1;
    }
    proof {
        lemma_first_line_at(cs@, k as int);
        assert(cs@.take(k as int) =~= cs@.subrange(0, k as int));
    }
    string_from_chars(&cs, 0, k)
}

/// `text.strip_prefix(prefix).unwrap_or(text)`.
pub fn strip_prefix_or_keep_str(text: &str, prefix: &str) -> (res: String)
    ensures
        res@ == strip_prefix_or_keep(text@, prefix@),
{
    let t = chars_of(text);
    let p = chars_of(prefix);
    if p.len() > t.len() {
        assert(t@.subrange(0, t.len() as int) =~= t@);
        return string_from_chars(&t, 0, t.len());
    }
    let mut i: usize = 0;
    while i < p.len()
        invariant
            p.len() <= t.len(),
            t@ == text@,
            p@ == prefix@,
            i <= p.len(),
            forall|j: int| 0 <= j < i ==> t@[j] == p@[j],
        decreases p.len() - i,
    {
        if t[i] != p[i] {
            assert(!p@.is_prefix_of(t@)) by {
                assert(t@.subrange(0, p@.len() as int)[i as int] == t@[i as int]);
            }
            assert(t@.subrange(0, t.len() as int) =~= t@);
            return string_from_chars(&t, 0, t.len());
        }
        i = i + 1;
    }
    assert(p@ =~= t@.subrange(0, p@.len() as int));
    assert(t@.subrange(p.len() as int, t.len() as int) =~= t@.skip(p@.len() as int));
    string_from_chars(&t, p.len(), t.len())
}

/// Appends the decimal form of `n` to `out`.
pub fn push_decimal(out: &mut Vec<char>, n: usize)
    ensures
        final(out)@ == old(out)@ + decimal(n as nat),
    decreases n,
{
    if n >= 10 {
        push_decimal(out, n / 10);
    }
    let d = (n % 10) as u8;
    let c = (48u8 + d) as char;
    assert(c == digit_char((n % 10) as nat));
    out.push(c);
    proof {
        if n >= 10 {
            assert(decimal(n as nat) == decimal((n / 10) as nat).push(digit_char((n % 10) as nat)));
        }
    }
    assert(final(out)@ =~= old(out)@ + decimal(n as nat)) by {
        if n >= 10 {
        } else {
            assert(decimal(n as nat) =~= seq![digit_char(n as nat)]);
        }
    }
}

/// Appends `n` formatted as `{:>width}`: right-aligned, padded with spaces.
pub fn push_padded_decimal(out: &mut Vec<char>, n: usize, width: usize)
    ensures
        final(out)@ == old(out)@ + pad_left(decimal(n as nat), width as nat),
{
    let mut digits: Vec<char> = Vec::new();
    push_decimal(&mut digits, n);
    assert(digits@ =~= decimal(n as nat));
    let mut pad = if digits.len() < width {
        width - digits.len()
    } else {
        0
    };
    let ghost start = out@;
    while pad > 0
        invariant
            out@ == start + spaces(
                ((if digits@.len() < width { width - digits@.len() } else { 0 }) - pad) as nat,
            ),
            pad <= (if digits@.len() < width { width - digits@.len() } else { 0 }),
        decreases pad,
    {
        out.push(' ');
        pad = pad - 1;
        assert(out@ =~= start + spaces(
            ((if digits@.len() < width { width - digits@.len() } else { 0 }) - pad) as nat,
        ));
    }
    let ghost mid = out@;
    let mut i: usize = 0;
    while i < digits.len()
        invariant
            i <= digits.len(),
            out@ == mid + digits@.take(i as int),
        decreases digits.len() - i,
    {
        out.push(digits[i]);
        assert(digits@.take(i + 1) =~= digits@.take(i as int).push(digits@[i as int]));
        i = i + 1;
    }
    assert(digits@.take(digits.len() as int) =~= digits@);
    if digits.len() < width {
        assert(final(out)@ =~= old(out)@ + pad_left(decimal(n as nat), width as nat));
    } else {
        assert(spaces(0) =~= Seq::<char>::empty());
        assert(final(out)@ =~= old(out)@ + pad_left(decimal(n as nat), width as nat));
    }
}

/// Whether the UTF-8 encoding of `s` (what `str::len` counts) is shorter
/// than `limit` bytes.
pub fn utf8_len_below(s: &str, limit: usize) -> (res: bool)
    ensures
        res == (encode_utf8(s@).len() < limit),
{
    let cs = chars_of(s);
    let mut total: usize = 0;
    let mut i: usize = 0;
    if limit == 0 {
        return false;
    }
    while i < cs.len()
        invariant
            i <= cs.len(),
            cs@ == s@,
            total == encode_utf8(cs@.take(i as int)).len(),
            total < limit,
        decreases cs.len() - i,
    {
        let v = cs[i] as u32;
        let w: usize = if v <= 0x7f {
            1
        } else if v <= 0x7ff {
            2
        } else if v <= 0xffff {
            3
        } else {
            4
        };
        proof {
            lemma_encode_scalar_len(cs@[i as int]);
            lemma_encode_utf8_push(cs@.take(i as int), cs@[i as int]);
            assert(cs@.take(i + 1) =~= cs@.take(i as int).push(cs@[i as int]));
        }
        if w >= limit - total {
            proof {
                lemma_encode_utf8_take_len(cs@, i + 1, cs@.len() as int);
                assert(cs@.take(cs@.len() as int) =~= cs@);
            }
            return false;
        }
        total = total + w;
        i = i + 1;
    }
    assert(cs@.take(cs.len() as int) =~= cs@);
    true
}

/// The number of UTF-16 code units of `s` (`s.encode_utf16().count()`).
pub fn utf16_len_str(s: &str) -> (res: usize)
    requires
        utf16_len(s@) <= usize::MAX,
    ensures
        res == utf16_len(s@),
{
    let cs = chars_of(s);
    let mut n: usize = 0;
    let mut i: usize = 0;
    while i < cs.len()
        invariant
            i <= cs.len(),
            cs@ == s@,
            n == utf16_len(cs@.take(i as int)),
            utf16_len(cs@) <= usize::MAX,
        decreases cs.len() - i,
    {
        proof {
            lemma_utf16_len_push(cs@.take(i as int), cs@[i as int]);
            assert(cs@.take(i + 1) =~= cs@.take(i as int).push(cs@[i as int]));
            lemma_utf16_len_prefix_le(cs@, i + 1);
        }
        if (cs[i] as u32) <= 0xffff {
            n = n + 1;
        } else {
            n = n + 2;
        }
        i = i + 1;
    }
    assert(cs@.take(cs.len() as int) =~= cs@);
    n
}

proof fn lemma_utf16_len_prefix_le(s: Seq<char>, k: int)
    requires
        0 <= k <= s.len(),
    ensures
        utf16_len(s.take(k)) <= utf16_len(s),
    decreases s.len(),
{
    if k == 0 {
    } else if s.len() > 0 {
        lemma_utf16_len_prefix_le(s.drop_first(), k - 1);
        assert(s.take(k).drop_first() =~= s.drop_first().take(k - 1));
    }
}

} // verus!
