//! Text building blocks for the XML parts of an OFD package: decimal and
//! fixed-point numbers, zero padding and XML escaping.

use vstd::prelude::*;

verus! {

/// The decimal digit characters, indexed by value.
pub const DIGITS: [char; 10] = ['0', '1', '2', '3', '4', '5', '6', '7', '8', '9'];

/// The character of a decimal digit (`d % 10`).
pub open spec fn digit(d: nat) -> char {
    DIGITS@[(d % 10) as int]
}

/// Shortest decimal representation of a natural number.
pub open spec fn decimal(n: nat) -> Seq<char>
    decreases n,
{
    if n < 10 {
        seq![digit(n)]
    } else {
        decimal(n / 10).push(digit(n % 10))
    }
}

/// The last `width` decimal digits of `n`, with leading zeros.
pub open spec fn digits_exact(n: nat, width: nat) -> Seq<char>
    decreases width,
{
    if width == 0 {
        seq![]
    } else {
        digits_exact(n / 10, (width - 1) as nat).push(digit(n % 10))
    }
}

/// `count` copies of `c`.
pub open spec fn repeat_char(c: char, count: nat) -> Seq<char> {
    Seq::new(count, |i: int| c)
}

/// Decimal representation of `n`, left-padded with zeros to at least `width`
/// characters (what `{:0width$}` prints for an unsigned number).
pub open spec fn zero_padded(n: nat, width: nat) -> Seq<char> {
    let d = decimal(n);
    if d.len() >= width {
        d
    } else {
        repeat_char('0', (width - d.len()) as nat) + d
    }
}

/// What `{:0width$}` prints for a signed number: the sign, then the
/// magnitude padded with zeros so that the whole takes at least `width`
/// characters.
pub open spec fn signed_zero_padded(v: int, width: nat) -> Seq<char> {
    if v < 0 {
        seq!['-'] + zero_padded((-v) as nat, if width >= 1 { (width - 1) as nat } else { 0 })
    } else {
        zero_padded(v as nat, width)
    }
}

/// A fixed-point value `v / 10000` written with exactly four decimals
/// (what `{:.4}` prints for that value).
pub open spec fn fixed4(v: nat) -> Seq<char> {
    decimal(v / 10000) + seq!['.'] + digits_exact(v % 10000, 4)
}

/// The escaped form of one character in XML text or attribute values.
pub open spec fn escape_char(c: char) -> Seq<char> {
    if c == '&' {
        "&amp;"@
    } else if c == '<' {
        "&lt;"@
    } else if c == '>' {
        "&gt;"@
    } else if c == '"' {
        "&quot;"@
    } else if c == '\'' {
        "&apos;"@
    } else {
        seq![c]
    }
}

/// XML escaping of a whole text: each character replaced by its escape.
pub open spec fn escape_xml(s: Seq<char>) -> Seq<char>
    decreases s.len(),
{
    if s.len() == 0 {
        seq![]
    } else {
        escape_xml(s.drop_last()) + escape_char(s.last())
    }
}

/// Escaped text holds no markup character: no `<`, `>`, `"` or `'`.
pub proof fn lemma_escaped_has_no_markup(s: Seq<char>)
    ensures
        forall|i: int|
            0 <= i < escape_xml(s).len() ==> {
                let c = #[trigger] escape_xml(s)[i];
                c != '<' && c != '>' && c != '"' && c != '\''
            },
    decreases s.len(),
{
    reveal_strlit("&amp;");
    reveal_strlit("&lt;");
    reveal_strlit("&gt;");
    reveal_strlit("&quot;");
    reveal_strlit("&apos;");
    if s.len() > 0 {
        lemma_escaped_has_no_markup(s.drop_last());
        let head = escape_xml(s.drop_last());
        let tail = escape_char(s.last());
        assert(escape_xml(s) == head + tail);
        assert forall|i: int| 0 <= i < tail.len() implies {
            let c = #[trigger] tail[i];
            c != '<' && c != '>' && c != '"' && c != '\''
        } by {}
        assert forall|i: int| 0 <= i < escape_xml(s).len() implies {
            let c = #[trigger] escape_xml(s)[i];
            c != '<' && c != '>' && c != '"' && c != '\''
        } by {
            if i < head.len() {
                assert(escape_xml(s)[i] == head[i]);
            } else {
                assert(escape_xml(s)[i] == tail[i - head.len()]);
            }
        }
    }
}

/// Reading XML text back: each of `&amp;`, `&lt;`, `&gt;`, `&quot;` and
/// `&apos;` becomes the character it stands for, read from left to right;
/// every other character stands for itself.
pub open spec fn unescape_xml(s: Seq<char>) -> Seq<char>
    decreases s.len(),
{
    if s.len() == 0 {
        seq![]
    } else if s.len() >= 5 && s.take(5) == "&amp;"@ {
        seq!['&'] + unescape_xml(s.skip(5))
    } else if s.len() >= 4 && s.take(4) == "&lt;"@ {
        seq!['<'] + unescape_xml(s.skip(4))
    } else if s.len() >= 4 && s.take(4) == "&gt;"@ {
        seq!['>'] + unescape_xml(s.skip(4))
    } else if s.len() >= 6 && s.take(6) == "&quot;"@ {
        seq!['"'] + unescape_xml(s.skip(6))
    } else if s.len() >= 6 && s.take(6) == "&apos;"@ {
        seq!['\''] + unescape_xml(s.skip(6))
    } else {
        seq![s[0]] + unescape_xml(s.skip(1))
    }
}

/// Escaping a concatenation escapes each part.
pub proof fn lemma_escape_concat(a: Seq<char>, b: Seq<char>)
    ensures
        escape_xml(a + b) == escape_xml(a) + escape_xml(b),
    decreases b.len(),
{
    if b.len() == 0 {
        assert(a + b =~= a);
        assert(escape_xml(a) + escape_xml(b) =~= escape_xml(a));
    } else {
        lemma_escape_concat(a, b.drop_last());
        assert((a + b).drop_last() =~= a + b.drop_last());
        assert((a + b).last() == b.last());
        assert(escape_xml(a) + escape_xml(b) =~= escape_xml(a) + escape_xml(b.drop_last()) + escape_char(
            b.last(),
        ));
    }
}

/// Reading back the escape of one character, followed by anything, gives
/// that character first.
proof fn lemma_unescape_char(c: char, t: Seq<char>)
    ensures
        unescape_xml(escape_char(c) + t) == seq![c] + unescape_xml(t),
{
    reveal_strlit("&amp;");
    reveal_strlit("&lt;");
    reveal_strlit("&gt;");
    reveal_strlit("&quot;");
    reveal_strlit("&apos;");
    let e = escape_char(c);
    let x = e + t;
    assert(x.len() > 0);
    if c == '&' {
        assert(x.take(5) =~= "&amp;"@);
        assert(x.skip(5) =~= t);
    } else if c == '<' {
        assert(x.take(5) != "&amp;"@ ==> true);
        if x.len() >= 5 {
            assert(x.take(5)[1] != "&amp;"@[1]);
        }
        assert(x.take(4) =~= "&lt;"@);
        assert(x.skip(4) =~= t);
    } else if c == '>' {
        if x.len() >= 5 {
            assert(x.take(5)[1] != "&amp;"@[1]);
        }
        assert(x.take(4)[1] != "&lt;"@[1]);
        assert(x.take(4) =~= "&gt;"@);
        assert(x.skip(4) =~= t);
    } else if c == '"' {
        assert(x.take(5)[1] != "&amp;"@[1]);
        assert(x.take(4)[1] != "&lt;"@[1]);
        assert(x.take(4)[1] != "&gt;"@[1]);
        assert(x.take(6) =~= "&quot;"@);
        assert(x.skip(6) =~= t);
    } else if c == '\'' {
        assert(x.take(5)[2] != "&amp;"@[2]);
        assert(x.take(4)[1] != "&lt;"@[1]);
        assert(x.take(4)[1] != "&gt;"@[1]);
        assert(x.take(6)[1] != "&quot;"@[1]);
        assert(x.take(6) =~= "&apos;"@);
        assert(x.skip(6) =~= t);
    } else {
        assert(e == seq![c]);
        assert(x[0] == c);
        if x.len() >= 5 {
            assert(x.take(5)[0] != "&amp;"@[0]);
        }
        if x.len() >= 4 {
            assert(x.take(4)[0] != "&lt;"@[0]);
            assert(x.take(4)[0] != "&gt;"@[0]);
        }
        if x.len() >= 6 {
            assert(x.take(6)[0] != "&quot;"@[0]);
            assert(x.take(6)[0] != "&apos;"@[0]);
        }
        assert(x.skip(1) =~= t);
    }
}

/// Escaping loses nothing: reading the escaped text back gives the text.
pub proof fn lemma_unescape_escape(s: Seq<char>)
    ensures
        unescape_xml(escape_xml(s)) == s,
    decreases s.len(),
{
    if s.len() > 0 {
        let head = seq![s[0]];
        let rest = s.skip(1);
        assert(s =~= head + rest);
        lemma_escape_concat(head, rest);
        assert(head.drop_last() =~= Seq::<char>::empty());
        assert(escape_xml(head.drop_last()) =~= Seq::<char>::empty());
        assert(head.last() == s[0]);
        assert(escape_xml(head) == escape_xml(head.drop_last()) + escape_char(head.last()));
        assert(escape_xml(head) =~= escape_char(s[0]));
        lemma_unescape_char(s[0], escape_xml(rest));
        lemma_unescape_escape(rest);
        assert(unescape_xml(escape_xml(s)) == seq![s[0]] + rest);
    } else {
        assert(escape_xml(s) =~= Seq::<char>::empty());
    }
}

/// Whether one of the five entities `&amp;`, `&lt;`, `&gt;`, `&quot;`,
/// `&apos;` starts at index `j` of `s`.
pub open spec fn entity_at(s: Seq<char>, j: int) -> bool {
    ||| j + 5 <= s.len() && s.subrange(j, j + 5) == "&amp;"@
    ||| j + 4 <= s.len() && s.subrange(j, j + 4) == "&lt;"@
    ||| j + 4 <= s.len() && s.subrange(j, j + 4) == "&gt;"@
    ||| j + 6 <= s.len() && s.subrange(j, j + 6) == "&quot;"@
    ||| j + 6 <= s.len() && s.subrange(j, j + 6) == "&apos;"@
}

/// In escaped text every `&` starts one of the five entities.
pub proof fn lemma_escaped_ampersands(s: Seq<char>)
    ensures
        forall|j: int| 0 <= j < escape_xml(s).len() && #[trigger] escape_xml(s)[j] == '&' ==> entity_at(escape_xml(s), j),
    decreases s.len(),
{
    reveal_strlit("&amp;");
    reveal_strlit("&lt;");
    reveal_strlit("&gt;");
    reveal_strlit("&quot;");
    reveal_strlit("&apos;");
    if s.len() > 0 {
        lemma_escaped_ampersands(s.drop_last());
        let head = escape_xml(s.drop_last());
        let tail = escape_char(s.last());
        let x = escape_xml(s);
        assert(x == head + tail);
        assert forall|j: int| 0 <= j < x.len() && #[trigger] x[j] == '&' implies entity_at(x, j) by {
            if j < head.len() {
                assert(head[j] == x[j]);
                assert(entity_at(head, j));
                if j + 5 <= head.len() {
                    assert(x.subrange(j, j + 5) =~= head.subrange(j, j + 5));
                }
                if j + 4 <= head.len() {
                    assert(x.subrange(j, j + 4) =~= head.subrange(j, j + 4));
                }
                if j + 6 <= head.len() {
                    assert(x.subrange(j, j + 6) =~= head.subrange(j, j + 6));
                }
            } else {
                let k = j - head.len();
                assert(tail[k] == x[j]);
                let c = s.last();
                assert(k == 0);
                assert(x.subrange(j, j + tail.len()) =~= tail);
                assert(c == '&' || c == '<' || c == '>' || c == '"' || c == '\'');
            }
        }
    }
}

/// Text without `&`, `<`, `>`, `"` or `'` escapes to itself.
pub proof fn lemma_escape_plain(s: Seq<char>)
    requires
        forall|i: int|
            0 <= i < s.len() ==> {
                let c = #[trigger] s[i];
                c != '&' && c != '<' && c != '>' && c != '"' && c != '\''
            },
    ensures
        escape_xml(s) == s,
    decreases s.len(),
{
    if s.len() > 0 {
        let init = s.drop_last();
        assert forall|i: int| 0 <= i < init.len() implies {
            let c = #[trigger] init[i];
            c != '&' && c != '<' && c != '>' && c != '"' && c != '\''
        } by {
            assert(init[i] == s[i]);
        }
        lemma_escape_plain(init);
        let c = s[s.len() - 1];
        assert(escape_char(c) == seq![c]);
        assert(init.push(c) =~= s);
        assert(init + seq![c] =~= s);
    }
}

/// Every character of a decimal representation is a digit `0`-`9`.
pub proof fn lemma_decimal_is_digits(n: nat)
    ensures
        decimal(n).len() >= 1,
        forall|i: int| 0 <= i < decimal(n).len() ==> '0' <= #[trigger] decimal(n)[i] <= '9',
    decreases n,
{
    if n >= 10 {
        lemma_decimal_is_digits(n / 10);
        assert forall|i: int| 0 <= i < decimal(n).len() implies '0' <= #[trigger] decimal(n)[i] <= '9' by {
            if i < decimal(n / 10).len() {
                assert(decimal(n)[i] == decimal(n / 10)[i]);
            }
        }
    }
}

proof fn lemma_digit_code(d: nat)
    ensures
        digit(d) as u32 == 48 + d % 10,
{
    let k = d % 10;
    if k == 0 {
    } else if k == 1 {
    } else if k == 2 {
    } else if k == 3 {
    } else if k == 4 {
    } else if k == 5 {
    } else if k == 6 {
    } else if k == 7 {
    } else if k == 8 {
    } else {
        assert(k == 9);
    }
}

/// Different numbers have different decimal representations.
pub proof fn lemma_decimal_injective(a: nat, b: nat)
    requires
        decimal(a) == decimal(b),
    ensures
        a == b,
    decreases a,
{
    lemma_decimal_is_digits(a / 10);
    lemma_decimal_is_digits(b / 10);
    lemma_digit_code(a);
    lemma_digit_code(b);
    if a >= 10 && b >= 10 {
        assert(decimal(a) == decimal(a / 10).push(digit(a % 10)));
        assert(decimal(b) == decimal(b / 10).push(digit(b % 10)));
        assert(decimal(a).drop_last() =~= decimal(a / 10));
        assert(decimal(b).drop_last() =~= decimal(b / 10));
        lemma_decimal_injective(a / 10, b / 10);
        assert(decimal(a).last() == digit(a % 10));
        assert(decimal(b).last() == digit(b % 10));
        assert(a % 10 == b % 10);
        vstd::arithmetic::div_mod::lemma_fundamental_div_mod(a as int, 10);
        vstd::arithmetic::div_mod::lemma_fundamental_div_mod(b as int, 10);
    } else if a < 10 && b < 10 {
        assert(decimal(a) == seq![digit(a)]);
        assert(decimal(b) == seq![digit(b)]);
        assert(seq![digit(a)][0] == digit(a));
        assert(seq![digit(b)][0] == digit(b));
        assert(decimal(a)[0] == decimal(b)[0]);
        assert(digit(a) == digit(b));
        assert(a % 10 == b % 10);
    } else if a < 10 {
        assert(decimal(b) == decimal(b / 10).push(digit(b % 10)));
        assert(decimal(a).len() != decimal(b).len());
    } else {
        assert(decimal(a) == decimal(a / 10).push(digit(a % 10)));
        assert(decimal(a).len() != decimal(b).len());
    }
}

/// `String::push`: appends one character.
#[verifier::external_body]
pub fn push_char(s: &mut String, c: char)
    ensures
        final(s)@ == old(s)@.push(c),
{
    s.push(c);
}

/// Appends `count` copies of `c`.
pub fn push_repeated(s: &mut String, c: char, count: usize)
    ensures
        final(s)@ == old(s)@ + repeat_char(c, count as nat),
{
    let mut i: usize = 0;
    while i < count
        invariant
            i <= count,
            s@ == old(s)@ + repeat_char(c, i as nat),
        decreases count - i,
    {
        push_char(s, c);
        i = i + 1;
        assert(s@ =~= old(s)@ + repeat_char(c, i as nat));
    }
}

/// Appends the decimal representation of `n`.
pub fn push_decimal(s: &mut String, n: u64)
    ensures
        final(s)@ == old(s)@ + decimal(n as nat),
    decreases n,
{
    if n >= 10 {
        push_decimal(s, n / 10);
    }
    push_char(s, DIGITS[(n % 10) as usize]);
    assert(old(s)@ + decimal(n as nat) =~= s@);
}

/// Number of characters in the decimal representation of `n`.
pub fn decimal_len(n: u64) -> (len: usize)
    ensures
        len == decimal(n as nat).len(),
    decreases n,
{
    proof {
        lemma_u64_decimal_len(n as nat);
    }
    if n < 10 {
        1
    } else {
        let l = decimal_len(n / 10);
        l + 1
    }
}

/// `10^k`.
pub open spec fn pow10(k: nat) -> nat
    decreases k,
{
    if k == 0 { 1 } else { 10 * pow10((k - 1) as nat) }
}

/// Below `10^k` a number has at most `k` digits (and always at least one).
proof fn lemma_decimal_len_below(n: nat, k: nat)
    requires
        n < pow10(k),
        k >= 1,
    ensures
        decimal(n).len() <= k,
    decreases k,
{
    if n >= 10 {
        assert(k >= 2) by {
            if k == 1 {
                reveal_with_fuel(pow10, 2);
            }
        }
        lemma_decimal_len_below(n / 10, (k - 1) as nat);
    }
}

/// A `u64` has at most 20 decimal digits.
pub proof fn lemma_u64_decimal_len(n: nat)
    requires
        n <= u64::MAX,
    ensures
        decimal(n).len() <= 20,
{
    reveal_with_fuel(pow10, 21);
    assert(pow10(20) == 100000000000000000000nat);
    lemma_decimal_len_below(n, 20);
}

/// Appends the last `width` decimal digits of `n`, with leading zeros.
pub fn push_digits_exact(s: &mut String, n: u64, width: u32)
    ensures
        final(s)@ == old(s)@ + digits_exact(n as nat, width as nat),
    decreases width,
{
    if width > 0 {
        push_digits_exact(s, n / 10, width - 1);
        push_char(s, DIGITS[(n % 10) as usize]);
        assert(old(s)@ + digits_exact(n as nat, width as nat) =~= s@);
    } else {
        assert(old(s)@ + digits_exact(n as nat, width as nat) =~= s@);
    }
}

/// Appends `n` in decimal, zero-padded to at least `width` characters.
pub fn push_zero_padded(s: &mut String, n: u64, width: usize)
    ensures
        final(s)@ == old(s)@ + zero_padded(n as nat, width as nat),
{
    let len = decimal_len(n);
    if len < width {
        push_repeated(s, '0', width - len);
    }
    push_decimal(s, n);
    assert(old(s)@ + zero_padded(n as nat, width as nat) =~= s@);
}

/// Appends a signed number as `{:0width$}` prints it.
pub fn push_signed_zero_padded(s: &mut String, v: i64, width: usize)
    ensures
        final(s)@ == old(s)@ + signed_zero_padded(v as int, width as nat),
{
    if v < 0 {
        push_char(s, '-');
        let magnitude: u64 = if v == i64::MIN {
            0x8000_0000_0000_0000u64
        } else {
            (-v) as u64
        };
        let w: usize = if width >= 1 { width - 1 } else { 0 };
        push_zero_padded(s, magnitude, w);
    } else {
        push_zero_padded(s, v as u64, width);
    }
    assert(old(s)@ + signed_zero_padded(v as int, width as nat) =~= s@);
}

/// Appends `v / 10000` with exactly four decimals.
pub fn push_fixed4(s: &mut String, v: u64)
    ensures
        final(s)@ == old(s)@ + fixed4(v as nat),
{
    push_decimal(s, v / 10000);
    push_char(s, '.');
    push_digits_exact(s, v % 10000, 4);
    assert(old(s)@ + fixed4(v as nat) =~= s@);
}

/// Appends the XML escape of one character.
pub fn push_escaped_char(s: &mut String, c: char)
    ensures
        final(s)@ == old(s)@ + escape_char(c),
{
    if c == '&' {
        s.append("&amp;");
    } else if c == '<' {
        s.append("&lt;");
    } else if c == '>' {
        s.append("&gt;");
    } else if c == '"' {
        s.append("&quot;");
    } else if c == '\'' {
        s.append("&apos;");
    } else {
        push_char(s, c);
        assert(old(s)@.push(c) =~= old(s)@ + seq![c]);
    }
}

/// Appends the XML escape of `text`.
pub fn push_escaped(s: &mut String, text: &str)
    ensures
        final(s)@ == old(s)@ + escape_xml(text@),
{
    let ghost start = s@;
    let mut it = text.chars();
    for c in iter: it
        invariant
            iter.seq() == text@,
            s@ == start + escape_xml(text@.take(iter.index() as int)),
    {
        let ghost before = text@.take(iter.index() as int);
        push_escaped_char(s, c);
        proof {
            let after = text@.take(iter.index() + 1);
            assert(after.drop_last() =~= before);
        }
    }
    assert(text@.take(text@.len() as int) =~= text@);
}

/// Escapes XML special characters in text content or attribute values.
pub fn escape_xml_string(text: &str) -> (escaped: String)
    ensures
        escaped@ == escape_xml(text@),
{
    let mut s = String::new();
    push_escaped(&mut s, text);
    assert(s@ =~= escape_xml(text@));
    s
}

} // verus!
