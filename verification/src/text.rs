//! Text rendering of fixed-point reals, the polynomial caption, and the
//! root-list markup.

use vstd::prelude::*;
use vstd::arithmetic::div_mod::lemma_div_decreases;
use vstd::string::StringExecFns;
use crate::fixed::{mag, ONE};
use crate::polynomial::{roots_of, to_ints, Polynomial};

verus! {

/// The decimal digit character for `d` in `0..10`.
pub open spec fn digit_char(d: int) -> char {
    if d == 0 {
        '0'
    } else if d == 1 {
        '1'
    } else if d == 2 {
        '2'
    } else if d == 3 {
        '3'
    } else if d == 4 {
        '4'
    } else if d == 5 {
        '5'
    } else if d == 6 {
        '6'
    } else if d == 7 {
        '7'
    } else if d == 8 {
        '8'
    } else {
        '9'
    }
}

/// Decimal digits of a nonnegative integer, most significant first.
pub open spec fn dec_str(n: int) -> Seq<char>
    decreases n,
{
    if n < 10 {
        seq![digit_char(n)]
    } else {
        dec_str(n / 10).push(digit_char(n % 10))
    }
}

/// The eight decimal digits of a fraction `0 <= n < ONE` of a unit, most
/// significant first (leading zeros kept).
pub open spec fn frac8(n: int) -> Seq<char> {
    seq![
        digit_char(n / 10_000_000),
        digit_char((n / 1_000_000) % 10),
        digit_char((n / 100_000) % 10),
        digit_char((n / 10_000) % 10),
        digit_char((n / 1_000) % 10),
        digit_char((n / 100) % 10),
        digit_char((n / 10) % 10),
        digit_char(n % 10),
    ]
}

/// Decimal rendering of a fixed-point real: optional minus sign, the whole
/// part, and, unless zero, a dot followed by all eight fraction digits.
pub open spec fn num_str(v: int) -> Seq<char> {
    let m = mag(v);
    let whole = dec_str(m / (ONE as int));
    let s = if m % (ONE as int) == 0 {
        whole
    } else {
        whole + seq!['.'] + frac8(m % (ONE as int))
    };
    if v < 0 {
        seq!['-'] + s
    } else {
        s
    }
}

/// Append one decimal digit character.
fn push_digit(s: &mut String, d: u64)
    requires
        d < 10,
    ensures
        final(s)@ == old(s)@.push(digit_char(d as int)),
{
    proof {
        reveal_strlit("0");
        reveal_strlit("1");
        reveal_strlit("2");
        reveal_strlit("3");
        reveal_strlit("4");
        reveal_strlit("5");
        reveal_strlit("6");
        reveal_strlit("7");
        reveal_strlit("8");
        reveal_strlit("9");
    }
    if d == 0 {
        s.append("0");
    } else if d == 1 {
        s.append("1");
    } else if d == 2 {
        s.append("2");
    } else if d == 3 {
        s.append("3");
    } else if d == 4 {
        s.append("4");
    } else if d == 5 {
        s.append("5");
    } else if d == 6 {
        s.append("6");
    } else if d == 7 {
        s.append("7");
    } else if d == 8 {
        s.append("8");
    } else {
        s.append("9");
    }
    assert(s@ =~= old(s)@.push(digit_char(d as int)));
}

/// Append the decimal digits of `n`.
fn push_decimal(s: &mut String, n: u64)
    ensures
        final(s)@ == old(s)@ + dec_str(n as int),
    decreases n,
{
    if n < 10 {
        push_digit(s, n);
        assert(s@ =~= old(s)@ + dec_str(n as int));
    } else {
        proof {
            lemma_div_decreases(n as int, 10);
        }
        push_decimal(s, n / 10);
        push_digit(s, n % 10);
        assert(s@ =~= old(s)@ + dec_str(n as int));
    }
}

/// Append the decimal rendering of a fixed-point real.
fn push_num(s: &mut String, v: i64)
    ensures
        final(s)@ == old(s)@ + num_str(v as int),
{
    let m: u64 = if v < 0 {
        proof {
            reveal_strlit("-");
        }
        s.append("-");
        (-(v as i128)) as u64
    } else {
        v as u64
    };
    assert(m as int == mag(v as int));
    let whole: u64 = m / 100_000_000;
    let frac: u64 = m % 100_000_000;
    push_decimal(s, whole);
    if frac != 0 {
        proof {
            reveal_strlit(".");
        }
        s.append(".");
        push_digit(s, frac / 10_000_000);
        push_digit(s, (frac / 1_000_000) % 10);
        push_digit(s, (frac / 100_000) % 10);
        push_digit(s, (frac / 10_000) % 10);
        push_digit(s, (frac / 1_000) % 10);
        push_digit(s, (frac / 100) % 10);
        push_digit(s, (frac / 10) % 10);
        push_digit(s, frac % 10);
    }
    assert(s@ =~= old(s)@ + num_str(v as int));
}

/// The caption piece contributed by coefficient `i`: a space, the
/// coefficient, for positive powers `x^i`, then a space and a plus.
pub open spec fn term_str(c: Seq<int>, i: int) -> Seq<char> {
    if i == 0 {
        seq![' '] + num_str(c[0]) + seq![' ', '+']
    } else {
        seq![' '] + num_str(c[i]) + seq!['x', '^'] + dec_str(i) + seq![' ', '+']
    }
}

/// The caption pieces of the first `i` coefficients, in order.
pub open spec fn terms_to(c: Seq<int>, i: int) -> Seq<char>
    decreases i,
{
    if i <= 0 {
        Seq::empty()
    } else {
        terms_to(c, i - 1) + term_str(c, i - 1)
    }
}

/// The chart caption: `y =` followed by every term, with the very last
/// character (the trailing plus, or the equals sign when there is no term
/// at all) taken back off.
pub open spec fn caption_of(c: Seq<int>) -> Seq<char> {
    (seq!['y', ' ', '='] + terms_to(c, c.len() as int)).drop_last()
}

/// The root-list markup of the first `i` roots: each root followed by a
/// `<br />` line break.
pub open spec fn markup_to(rs: Seq<int>, i: int) -> Seq<char>
    decreases i,
{
    if i <= 0 {
        Seq::empty()
    } else {
        markup_to(rs, i - 1) + num_str(rs[i - 1]) + seq![' ', '<', 'b', 'r', ' ', '/', '>']
    }
}

impl Polynomial {
    /// The human-readable caption of the polynomial.
    pub fn get_caption(&self) -> (r: String)
        ensures
            r@ == caption_of(self@),
    {
        let len = self.len();
        if len == 0 {
            proof {
                reveal_strlit("y ");
            }
            let r = String::from_str("y ");
            assert(r@ =~= caption_of(self@));
            return r;
        }
        proof {
            reveal_strlit("y =");
        }
        let mut s = String::from_str("y =");
        assert(s@ =~= seq!['y', ' ', '='] + terms_to(self@, 0));
        for i in 0..len - 1
            invariant
                len == self@.len(),
                1 <= len,
                s@ == seq!['y', ' ', '='] + terms_to(self@, i as int),
        {
            self.push_term(&mut s, i);
            proof {
                assert(s@ =~= seq!['y', ' ', '='] + terms_to(self@, i + 1 as int));
            }
        }
        // the final piece is emitted without its plus: exactly what is
        // left of the full caption once its last character is taken off.
        self.push_term_last(&mut s, len - 1);
        proof {
            assert(s@ =~= caption_of(self@));
        }
        s
    }

    /// The located roots, each on a line of markup.
    pub fn format_roots(&self) -> (r: String)
        requires
            self@.len() >= 1,
        ensures
            r@ == markup_to(roots_of(self@), roots_of(self@).len() as int),
    {
        let roots = self.get_roots();
        let n = roots.len();
        let mut s = String::new();
        assert(s@ =~= markup_to(roots_of(self@), 0));
        for i in 0..n
            invariant
                n == roots@.len(),
                to_ints(roots@) == roots_of(self@),
                s@ == markup_to(roots_of(self@), i as int),
        {
            push_num(&mut s, roots[i]);
            proof {
                reveal_strlit(" <br />");
            }
            s.append(" <br />");
            proof {
                assert(roots@[i as int] as int == roots_of(self@)[i as int]);
                assert(s@ =~= markup_to(roots_of(self@), i + 1 as int));
            }
        }
        s
    }

    /// Append the caption piece of coefficient `i`.
    fn push_term(&self, s: &mut String, i: usize)
        requires
            i < self@.len(),
        ensures
            final(s)@ == old(s)@ + term_str(self@, i as int),
    {
        proof {
            reveal_strlit(" ");
            reveal_strlit("x^");
            reveal_strlit(" +");
        }
        s.append(" ");
        push_num(s, self.coefficient(i));
        if i > 0 {
            s.append("x^");
            push_decimal(s, i as u64);
        }
        s.append(" +");
        assert(s@ =~= old(s)@ + term_str(self@, i as int));
    }

    /// Append the caption piece of coefficient `i` without the trailing
    /// plus sign: the shape of the caption's last piece.
    fn push_term_last(&self, s: &mut String, i: usize)
        requires
            i < self@.len(),
        ensures
            final(s)@ == old(s)@ + term_str(self@, i as int).drop_last(),
    {
        proof {
            reveal_strlit(" ");
            reveal_strlit("x^");
        }
        s.append(" ");
        push_num(s, self.coefficient(i));
        if i > 0 {
            s.append("x^");
            push_decimal(s, i as u64);
        }
        s.append(" ");
        assert(s@ =~= old(s)@ + term_str(self@, i as int).drop_last());
    }
}

} // verus!
