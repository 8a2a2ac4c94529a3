//! Numbers as text, and columns of text.

use vstd::prelude::*;

verus! {

/// The digit that stands for `d`, in bases up to sixteen.
pub open spec fn digit(d: int) -> char {
    if d < 10 {
        (48 + d) as char
    } else {
        (87 + d) as char
    }
}

/// `n` in base ten, without leading zeros.
pub open spec fn decimal(n: nat) -> Seq<char>
    decreases n,
{
    if n < 10 {
        seq![digit(n as int)]
    } else {
        decimal(n / 10).push(digit((n % 10) as int))
    }
}

/// `n` in base sixteen with lower-case digits, filled up with leading zeros
/// to at least `width` digits.
pub open spec fn hex(n: nat, width: nat) -> Seq<char>
    decreases n + width,
{
    if n < 16 && width <= 1 {
        seq![digit(n as int)]
    } else {
        hex(
            n / 16,
            if width == 0 {
                0
            } else {
                (width - 1) as nat
            },
        ).push(digit((n % 16) as int))
    }
}

/// `n` spaces.
pub open spec fn spaces(n: int) -> Seq<char> {
    Seq::new(
        if n < 0 {
            0
        } else {
            n as nat
        },
        |i: int| ' ',
    )
}

/// `s` moved to the right end of a column of `width` characters.
pub open spec fn right(s: Seq<char>, width: int) -> Seq<char> {
    spaces(width - s.len()) + s
}

/// `s` at the left end of a column of `width` characters.
pub open spec fn left(s: Seq<char>, width: int) -> Seq<char> {
    s + spaces(width - s.len())
}

/// `true` or `false`.
pub open spec fn truth(b: bool) -> Seq<char> {
    if b {
        "true"@
    } else {
        "false"@
    }
}

/// The lines of a list of strings.
pub open spec fn views(v: Seq<String>) -> Seq<Seq<char>> {
    v.map_values(|s: String| s@)
}

/// Appends a line.
pub fn push_line(out: &mut Vec<String>, s: String)
    ensures
        views(final(out)@) == views(old(out)@).push(s@),
        final(out)@ == old(out)@.push(s),
{
    let ghost before = out@;
    out.push(s);
    proof {
        assert(views(out@) =~= views(before).push(s@));
    }
}

/// No lines.
pub fn no_lines() -> (r: Vec<String>)
    ensures
        views(r@) == Seq::<Seq<char>>::empty(),
        r@.len() == 0,
{
    let r: Vec<String> = Vec::new();
    proof {
        assert(views(r@) =~= Seq::<Seq<char>>::empty());
    }
    r
}

/// Whether two byte strings are the same.
pub fn same_bytes(a: &[u8], b: &[u8]) -> (r: bool)
    ensures
        r == (a@ == b@),
{
    if a.len() != b.len() {
        return false;
    }
    for i in 0..a.len()
        invariant
            a@.len() == b@.len(),
            forall|j: int| 0 <= j < i ==> a@[j] == b@[j],
    {
        if a[i] != b[i] {
            return false;
        }
    }
    proof {
        assert(a@ =~= b@);
    }
    true
}

/// Whether two texts are the same.
pub fn same(a: &str, b: &str) -> (r: bool)
    ensures
        r == (a@ == b@),
{
    proof {
        vstd::utf8::encode_utf8_decode_utf8(a@);
        vstd::utf8::encode_utf8_decode_utf8(b@);
    }
    same_bytes(a.as_bytes(), b.as_bytes())
}

/// The digit that stands for `d`.
fn digit_str(d: u64) -> (r: &'static str)
    requires
        d < 16,
    ensures
        r@ == seq![digit(d as int)],
{
    proof {
        reveal_strlit("0");
        reveal_strlit("1");
        reveal_strlit("2");
        reveal_strlit("3");
        reveal_strlit("4");
        reveal_strlit("5");
        reveal_strlit("6");
        reveal_strlit("7");
        reveal_strlit("8");
        reveal_strlit("9");
        reveal_strlit("a");
        reveal_strlit("b");
        reveal_strlit("c");
        reveal_strlit("d");
        reveal_strlit("e");
        reveal_strlit("f");
    }
    match d {
        0 => "0",
        1 => "1",
        2 => "2",
        3 => "3",
        4 => "4",
        5 => "5",
        6 => "6",
        7 => "7",
        8 => "8",
        9 => "9",
        10 => "a",
        11 => "b",
        12 => "c",
        13 => "d",
        14 => "e",
        _ => "f",
    }
}

/// Appends `n` in base ten.
pub fn push_decimal(out: &mut String, n: u64)
    ensures
        final(out)@ == old(out)@ + decimal(n as nat),
    decreases n,
{
    if n >= 10 {
        push_decimal(out, n / 10);
    }
    out.append(digit_str(n % 10));
    proof {
        if n < 10 {
            assert(out@ == old(out)@ + decimal(n as nat));
        } else {
            assert(old(out)@ + decimal((n / 10) as nat) + seq![digit((n % 10) as int)] == old(
                out,
            )@ + decimal(n as nat));
        }
    }
}

/// Appends `n` in base sixteen with at least `width` digits.
pub fn push_hex(out: &mut String, n: u64, width: u64)
    ensures
        final(out)@ == old(out)@ + hex(n as nat, width as nat),
    decreases n as int + width as int,
{
    let less = if width == 0 {
        0
    } else {
        width - 1
    };
    if n >= 16 || width > 1 {
        push_hex(out, n / 16, less);
    }
    out.append(digit_str(n % 16));
    proof {
        if n < 16 && width <= 1 {
            assert(out@ == old(out)@ + hex(n as nat, width as nat));
        } else {
            assert(old(out)@ + hex((n / 16) as nat, less as nat) + seq![digit((n % 16) as int)]
                == old(out)@ + hex(n as nat, width as nat));
        }
    }
}

/// Appends `n` spaces.
fn push_spaces(out: &mut String, n: usize)
    ensures
        final(out)@ == old(out)@ + spaces(n as int),
{
    proof {
        reveal_strlit(" ");
        assert(out@ == old(out)@ + spaces(0));
    }
    for i in 0..n
        invariant
            out@ == old(out)@ + spaces(i as int),
    {
        out.append(" ");
        proof {
            reveal_strlit(" ");
            assert(old(out)@ + spaces(i as int) + seq![' '] == old(out)@ + spaces(i + 1));
            assert(" "@ == seq![' ']);
        }
    }
}

/// Appends `s`, right-aligned in a column of `width` characters.
pub fn push_right(out: &mut String, s: &str, width: usize)
    ensures
        final(out)@ == old(out)@ + right(s@, width as int),
{
    let n = s.unicode_len();
    if n < width {
        push_spaces(out, width - n);
    }
    out.append(s);
    proof {
        assert(out@ == old(out)@ + right(s@, width as int));
    }
}

/// Appends `s`, left-aligned in a column of `width` characters.
pub fn push_left(out: &mut String, s: &str, width: usize)
    ensures
        final(out)@ == old(out)@ + left(s@, width as int),
{
    let n = s.unicode_len();
    out.append(s);
    if n < width {
        push_spaces(out, width - n);
    }
    proof {
        assert(out@ == old(out)@ + left(s@, width as int));
    }
}

/// Appends `n` in base ten, right-aligned in a column of `width` characters.
pub fn push_number(out: &mut String, n: u64, width: usize)
    ensures
        final(out)@ == old(out)@ + right(decimal(n as nat), width as int),
{
    let s = number(n);
    push_right(out, s.as_str(), width);
}

/// `n` in base ten.
pub fn number(n: u64) -> (r: String)
    ensures
        r@ == decimal(n as nat),
{
    let mut s = String::new();
    push_decimal(&mut s, n);
    proof {
        assert(s@ == decimal(n as nat));
    }
    s
}

/// Appends `true` or `false`.
pub fn push_truth(out: &mut String, b: bool)
    ensures
        final(out)@ == old(out)@ + truth(b),
{
    if b {
        out.append("true");
    } else {
        out.append("false");
    }
}

/// The text of a number tells the number.
pub proof fn law_decimal_is_injective(a: nat, b: nat)
    requires
        decimal(a) == decimal(b),
    ensures
        a == b,
    decreases a,
{
    let s = decimal(a);
    let t = decimal(b);
    assert(s.last() == t.last());
    assert(s.last() == digit((a % 10) as int));
    assert(t.last() == digit((b % 10) as int));
    lemma_decimal_len(a);
    lemma_decimal_len(b);
    if a >= 10 {
        assert(s.drop_last() == decimal(a / 10));
        assert(t.drop_last() == decimal(b / 10));
        law_decimal_is_injective(a / 10, b / 10);
    }
}

proof fn lemma_decimal_len(n: nat)
    ensures
        decimal(n).len() >= 1,
        n < 10 <==> decimal(n).len() == 1,
    decreases n,
{
    if n >= 10 {
        lemma_decimal_len(n / 10);
    }
}

/// The number that a digit stands for.
pub open spec fn digit_value(c: char) -> int {
    if c as int <= 57 {
        c as int - 48
    } else {
        c as int - 87
    }
}

/// The number that a row of digits stands for, the highest first.
pub open spec fn value(s: Seq<char>, base: int) -> int
    decreases s.len(),
{
    if s.len() == 0 {
        0
    } else {
        base * value(s.drop_last(), base) + digit_value(s.last())
    }
}

/// The decimal text of a number is made of the digits 0 to 9 alone, stands for
/// that number, and has no leading zero unless it is the number 0.
pub proof fn law_decimal_reads_back(n: nat)
    ensures
        value(decimal(n), 10) == n,
        forall|k: int| 0 <= k < decimal(n).len() ==> '0' <= #[trigger] decimal(n)[k] <= '9',
        decimal(n).len() >= 1,
        n > 0 ==> decimal(n)[0] != '0',
        n == 0 ==> decimal(n) == seq!['0'],
    decreases n,
{
    let s = decimal(n);
    if n < 10 {
        assert(s.drop_last() =~= Seq::<char>::empty());
        assert(value(s.drop_last(), 10) == 0);
    } else {
        let t = decimal(n / 10);
        law_decimal_reads_back(n / 10);
        assert(s.drop_last() =~= t);
        assert forall|k: int| 0 <= k < s.len() implies '0' <= #[trigger] s[k] <= '9' by {
            if k < t.len() {
                assert(s[k] == t[k]);
            }
        }
        assert(s[0] == t[0]);
    }
}

/// The hexadecimal text of a number is made of the digits 0 to 9 and a to f
/// alone, stands for that number, has at least the digits that were asked for,
/// and more only where the number needs them.
pub proof fn law_hex_reads_back(n: nat, width: nat)
    ensures
        value(hex(n, width), 16) == n,
        forall|k: int|
            0 <= k < hex(n, width).len() ==> '0' <= #[trigger] hex(n, width)[k] <= '9' || 'a' <= hex(
                n,
                width,
            )[k] <= 'f',
        hex(n, width).len() >= width,
        hex(n, width).len() >= 1,
        n >= 16 ==> hex(n, width).len() > 1,
        hex(n, width).len() > width && hex(n, width).len() > 1 ==> hex(n, width)[0] != '0',
    decreases n + width,
{
    let s = hex(n, width);
    if n < 16 && width <= 1 {
        assert(s.drop_last() =~= Seq::<char>::empty());
        assert(value(s.drop_last(), 16) == 0);
    } else {
        let less = if width == 0 {
            0nat
        } else {
            (width - 1) as nat
        };
        let t = hex(n / 16, less);
        law_hex_reads_back(n / 16, less);
        assert(s.drop_last() =~= t);
        assert forall|k: int| 0 <= k < s.len() implies '0' <= #[trigger] s[k] <= '9' || 'a' <= s[k]
            <= 'f' by {
            if k < t.len() {
                assert(s[k] == t[k]);
            }
        }
        assert(s[0] == t[0]);
        if t.len() == 1 && less == 0 {
            assert(n >= 16);
            assert(t == seq![digit((n / 16) as int)]);
        }
    }
}

/// In a column a text stays whole, at its end of the column, and all the rest is
/// blank; a text that is too long for the column is not cut.
pub proof fn law_columns_keep_the_text(s: Seq<char>, width: int)
    ensures
        right(s, width).len() == left(s, width).len(),
        right(s, width).len() == (if s.len() >= width {
            s.len() as int
        } else {
            width
        }),
        right(s, width).skip(right(s, width).len() - s.len()) == s,
        left(s, width).take(s.len() as int) == s,
        forall|k: int|
            0 <= k < right(s, width).len() - s.len() ==> #[trigger] right(s, width)[k] == ' ',
        forall|k: int| s.len() <= k < left(s, width).len() ==> #[trigger] left(s, width)[k] == ' ',
{
    assert(right(s, width).skip(right(s, width).len() - s.len()) =~= s);
    assert(left(s, width).take(s.len() as int) =~= s);
}

proof fn lemma_hex_len(n: nat, width: nat)
    requires
        n < vstd::arithmetic::power::pow(16, width),
        width >= 1,
    ensures
        hex(n, width).len() == width,
    decreases width,
{
    vstd::arithmetic::power::lemma_pow1(16);
    if width > 1 {
        reveal(vstd::arithmetic::power::pow);
        let less = (width - 1) as nat;
        assert(vstd::arithmetic::power::pow(16, width) == 16 * vstd::arithmetic::power::pow(
            16,
            less,
        ));
        assert(n / 16 < vstd::arithmetic::power::pow(16, less));
        lemma_hex_len(n / 16, less);
    }
}

/// Sixteen digits are enough for every number of 64 bits: the text of one has
/// exactly as many.
pub proof fn law_hex_is_as_wide_as_asked(n: u64)
    ensures
        hex(n as nat, 16).len() == 16,
{
    assert(vstd::arithmetic::power::pow(16, 16) == 0x1_0000_0000_0000_0000) by {
        reveal_with_fuel(vstd::arithmetic::power::pow, 17);
    }
    lemma_hex_len(n as nat, 16);
}

/// A number has as many decimal digits as it needs.
pub proof fn law_decimal_width(n: nat)
    ensures
        n < 10 <==> decimal(n).len() == 1,
        10 <= n < 100 <==> decimal(n).len() == 2,
        100 <= n < 1000 <==> decimal(n).len() == 3,
        1000 <= n < 10_000 <==> decimal(n).len() == 4,
        10_000 <= n < 100_000 <==> decimal(n).len() == 5,
        decimal(n).len() >= 1,
{
    lemma_decimal_len(n);
    lemma_decimal_len(n / 10);
    lemma_decimal_len(n / 10 / 10);
    lemma_decimal_len(n / 10 / 10 / 10);
    lemma_decimal_len(n / 10 / 10 / 10 / 10);
    if n >= 10 {
        assert(decimal(n).len() == decimal(n / 10).len() + 1);
        if n >= 100 {
            assert(decimal(n / 10).len() == decimal(n / 10 / 10).len() + 1);
            if n >= 1000 {
                assert(decimal(n / 10 / 10).len() == decimal(n / 10 / 10 / 10).len() + 1);
                if n >= 10_000 {
                    assert(decimal(n / 10 / 10 / 10).len() == decimal(n / 10 / 10 / 10 / 10).len()
                        + 1);
                }
            }
        }
    }
}

/// What is true is called so, and what is not is not.
pub proof fn law_truth()
    ensures
        truth(true) == "true"@,
        truth(false) == "false"@,
{
}

} // verus!
