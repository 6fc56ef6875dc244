//! Small text helpers shared by the parsing and reporting modules.

use vstd::prelude::*;

verus! {

/// Whether two string slices hold the same characters.
pub fn str_eq(a: &str, b: &str) -> (r: bool)
    ensures
        r == (a@ == b@),
{
    let sa = String::from_str(a);
    let sb = String::from_str(b);
    sa == sb
}

/// Lexicographic order on character sequences, by code point; a prefix comes
/// before every extension of it.
pub open spec fn lex_leq(a: Seq<char>, b: Seq<char>) -> bool
    decreases a.len(),
{
    if a.len() == 0 {
        true
    } else if b.len() == 0 {
        false
    } else if (a[0] as u32) < (b[0] as u32) {
        true
    } else if (a[0] as u32) > (b[0] as u32) {
        false
    } else {
        lex_leq(a.skip(1), b.skip(1))
    }
}

/// Any two sequences are ordered one way or the other.
pub proof fn lemma_lex_total(a: Seq<char>, b: Seq<char>)
    ensures
        lex_leq(a, b) || lex_leq(b, a),
    decreases a.len(),
{
    if a.len() > 0 && b.len() > 0 && (a[0] as u32) == (b[0] as u32) {
        lemma_lex_total(a.skip(1), b.skip(1));
    }
}

pub proof fn lemma_lex_trans(a: Seq<char>, b: Seq<char>, c: Seq<char>)
    requires
        lex_leq(a, b),
        lex_leq(b, c),
    ensures
        lex_leq(a, c),
    decreases a.len(),
{
    if a.len() > 0 && b.len() > 0 && c.len() > 0 && (a[0] as u32) == (b[0] as u32) && (b[0] as u32)
        == (c[0] as u32) {
        lemma_lex_trans(a.skip(1), b.skip(1), c.skip(1));
    }
}

/// Whether `a` comes no later than `b` in lexicographic order.
pub fn lex_leq_exec(a: &str, b: &str) -> (r: bool)
    ensures
        r == lex_leq(a@, b@),
{
    let la = a.unicode_len();
    let lb = b.unicode_len();
    let mut i: usize = 0;
    proof {
        assert(a@.skip(0) =~= a@);
        assert(b@.skip(0) =~= b@);
    }
    while i < la && i < lb
        invariant
            la == a@.len(),
            lb == b@.len(),
            i <= la,
            i <= lb,
            lex_leq(a@, b@) == lex_leq(a@.skip(i as int), b@.skip(i as int)),
        decreases la - i,
    {
        let ca = a.get_char(i);
        let cb = b.get_char(i);
        if (ca as u32) < (cb as u32) {
            return true;
        }
        if (ca as u32) > (cb as u32) {
            return false;
        }
        proof {
            assert(a@.skip(i as int).skip(1) =~= a@.skip(i as int + 1));
            assert(b@.skip(i as int).skip(1) =~= b@.skip(i as int + 1));
        }
        i += 1;
    }
    proof {
        if i >= la {
            assert(a@.skip(i as int).len() == 0);
        } else {
            assert(b@.skip(i as int).len() == 0);
            assert(a@.skip(i as int).len() > 0);
        }
    }
    la <= lb
}

/// The decimal digit character for a value below ten.
pub open spec fn spec_digit(d: int) -> char {
    seq!['0', '1', '2', '3', '4', '5', '6', '7', '8', '9'][d]
}

/// The decimal numeral of a number, most significant digit first.
pub open spec fn dec_seq(n: nat) -> Seq<char>
    decreases n,
{
    if n < 10 {
        seq![spec_digit(n as int)]
    } else {
        dec_seq(n / 10).push(spec_digit((n % 10) as int))
    }
}

/// The rendering of a signed number: a minus sign before the numeral of its
/// magnitude.
pub open spec fn int_seq(v: int) -> Seq<char> {
    if v < 0 {
        seq!['-'] + dec_seq((-v) as nat)
    } else {
        dec_seq(v as nat)
    }
}

/// The one-character string of a decimal digit.
fn digit_str(d: usize) -> (r: &'static str)
    requires
        d < 10,
    ensures
        r@ == seq![spec_digit(d as int)],
{
    proof {
        reveal_strlit("0");
        reveal_strlit("1");
        reveal_strlit("2");
        reveal_strlit("3");
        reveal_strlit("4");
        reveal_strlit("5");
        reveal_strlit("6");
        reveal_strlit("7");
        reveal_strlit("8");
        reveal_strlit("9");
    }
    if d == 0 {
        "0"
    } else if d == 1 {
        "1"
    } else if d == 2 {
        "2"
    } else if d == 3 {
        "3"
    } else if d == 4 {
        "4"
    } else if d == 5 {
        "5"
    } else if d == 6 {
        "6"
    } else if d == 7 {
        "7"
    } else if d == 8 {
        "8"
    } else {
        "9"
    }
}

/// Render a number in decimal.
pub fn usize_to_string(x: usize) -> (r: String)
    ensures
        r@ == dec_seq(x as nat),
    decreases x,
{
    if x < 10 {
        String::from_str(digit_str(x))
    } else {
        let mut s = usize_to_string(x / 10);
        s.append(digit_str(x % 10));
        proof {
            assert(dec_seq((x / 10) as nat).push(spec_digit((x % 10) as int)) =~= dec_seq(
                (x / 10) as nat,
            ) + seq![spec_digit((x % 10) as int)]);
        }
        s
    }
}

/// Render a signed number in decimal.
pub fn isize_to_string(v: isize) -> (r: String)
    requires
        v != isize::MIN,
    ensures
        r@ == int_seq(v as int),
{
    if v < 0 {
        let mut s = String::from_str("-");
        let m = -v;
        s.append(usize_to_string(m as usize).as_str());
        proof {
            reveal_strlit("-");
            assert("-"@ =~= seq!['-']);
        }
        s
    } else {
        usize_to_string(v as usize)
    }
}

/// A run of spaces.
pub open spec fn spaces(w: int) -> Seq<char>
    decreases w,
{
    if w <= 0 {
        Seq::empty()
    } else {
        seq![' '] + spaces(w - 1)
    }
}

/// The sequence padded with spaces on the left to at least `w` characters.
pub open spec fn pad_left(s: Seq<char>, w: int) -> Seq<char> {
    if s.len() >= w {
        s
    } else {
        spaces(w - s.len()) + s
    }
}

/// Right-align a string in a field of `w` characters.
pub fn pad_left_exec(s: String, w: usize) -> (r: String)
    ensures
        r@ == pad_left(s@, w as int),
{
    let len = s.as_str().unicode_len();
    if len >= w {
        return s;
    }
    let mut out = String::new();
    let mut i: usize = 0;
    proof {
        assert(out@ =~= spaces(0));
    }
    while i < w - len
        invariant
            len < w,
            len == s@.len(),
            i <= w - len,
            out@ == spaces(i as int),
        decreases w - len - i,
    {
        out.append(" ");
        proof {
            reveal_strlit(" ");
            assert(" "@ =~= seq![' ']);
            assert(spaces(i as int) + seq![' '] =~= spaces(i as int + 1)) by {
                lemma_spaces_snoc(i as int + 1);
            }
        }
        i += 1;
    }
    out.append(s.as_str());
    out
}

/// A run of spaces grows one space at a time on either side.
proof fn lemma_spaces_snoc(w: int)
    requires
        w > 0,
    ensures
        spaces(w) == spaces(w - 1) + seq![' '],
    decreases w,
{
    if w == 1 {
        assert(spaces(1) =~= spaces(0) + seq![' ']);
    } else {
        lemma_spaces_snoc(w - 1);
        assert(spaces(w) == seq![' '] + spaces(w - 1));
        assert(seq![' '] + (spaces(w - 2) + seq![' ']) =~= (seq![' '] + spaces(w - 2)) + seq![' ']);
    }
}

} // verus!
