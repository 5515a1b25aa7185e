//! Decimal text, the list of used squares, and the report of a finished tiling.
use vstd::prelude::*;
use crate::squares::{Config, Integer, Plate, count_used};

verus! {

/// The character of the decimal digit `d`.
pub open spec fn digit_char(d: int) -> char {
    (48 + d) as char
}

/// Decimal digits of `n`, without leading zeros.
pub open spec fn decimal(n: nat) -> Seq<char>
    decreases n,
{
    if n < 10 {
        seq![digit_char(n as int)]
    } else {
        decimal(n / 10) + seq![digit_char((n % 10) as int)]
    }
}

/// Decimal text of an integer, with a minus sign when it is negative.
pub open spec fn int_text(n: int) -> Seq<char> {
    if n < 0 {
        seq!['-'] + decimal((-n) as nat)
    } else {
        decimal(n as nat)
    }
}

/// The used square sizes below `n`, in increasing order, in decimal, separated by ", ".
pub open spec fn used_list(s: Seq<bool>, n: int) -> Seq<char>
    decreases n,
{
    if n <= 0 {
        Seq::empty()
    } else {
        let prev = used_list(s, n - 1);
        if s[n - 1] {
            if prev.len() == 0 {
                decimal((n - 1) as nat)
            } else {
                prev + ", "@ + decimal((n - 1) as nat)
            }
        } else {
            prev
        }
    }
}

/// The set of used square sizes in braces, such as `{2, 5, 9}`.
pub open spec fn squares_text(s: Seq<bool>) -> Seq<char> {
    "{"@ + used_list(s, 256) + "}"@
}

/// The report of a tiling: `S` for a square or `R` for a rectangle, its width and height,
/// the number of squares and their sizes.
pub open spec fn report_text(is_square: bool, size: int, height: int, s: Seq<bool>) -> Seq<char> {
    (if is_square {
        "S, W: "@
    } else {
        "R, W: "@
    }) + int_text(size) + ", H: "@ + int_text(height) + ", ORDER: "@ + decimal(count_used(s))
        + ", SET: "@ + squares_text(s)
}

/// A plate as `(width, height)`.
pub open spec fn plate_text(x: Plate) -> Seq<char> {
    "("@ + int_text(x.width as int) + ", "@ + int_text(x.height as int) + ")"@
}

/// The first `n` plates, each as `(width, height)`, separated by ", ".
pub open spec fn plates_text(p: Seq<Plate>, n: int) -> Seq<char>
    decreases n,
{
    if n <= 0 {
        Seq::empty()
    } else if n == 1 {
        plate_text(p[0])
    } else {
        plates_text(p, n - 1) + ", "@ + plate_text(p[n - 1])
    }
}

/// The description of a configuration: its size, the set of used sizes in quotes, and its plates.
pub open spec fn description_text(c: Config) -> Seq<char> {
    "Config: size: "@ + int_text(c.size as int) + ", squares: \""@ + squares_text(c.squares@)
        + "\", plates: ["@ + plates_text(c.plates@, c.plates@.len() as int) + "]"@
}

/// The one-character text of the digit `d`.
fn digit_str(d: u64) -> (t: &'static str)
    requires
        d < 10,
    ensures
        t@ == seq![digit_char(d as int)],
{
    match d {
        0 => {
            proof {
                reveal_strlit("0");
            }
            "0"
        },
        1 => {
            proof {
                reveal_strlit("1");
            }
            "1"
        },
        2 => {
            proof {
                reveal_strlit("2");
            }
            "2"
        },
        3 => {
            proof {
                reveal_strlit("3");
            }
            "3"
        },
        4 => {
            proof {
                reveal_strlit("4");
            }
            "4"
        },
        5 => {
            proof {
                reveal_strlit("5");
            }
            "5"
        },
        6 => {
            proof {
                reveal_strlit("6");
            }
            "6"
        },
        7 => {
            proof {
                reveal_strlit("7");
            }
            "7"
        },
        8 => {
            proof {
                reveal_strlit("8");
            }
            "8"
        },
        _ => {
            proof {
                reveal_strlit("9");
            }
            "9"
        },
    }
}

/// Appends the decimal digits of `n`.
pub fn push_decimal(s: &mut String, n: u64)
    ensures
        final(s)@ == old(s)@ + decimal(n as nat),
    decreases n,
{
    if n >= 10 {
        push_decimal(s, n / 10);
        s.append(digit_str(n % 10));
        assert(final(s)@ =~= old(s)@ + decimal(n as nat));
    } else {
        s.append(digit_str(n));
        assert(final(s)@ =~= old(s)@ + decimal(n as nat));
    }
}

/// Appends the decimal text of `n`, with a minus sign when it is negative.
pub fn push_int(s: &mut String, n: Integer)
    ensures
        final(s)@ == old(s)@ + int_text(n as int),
{
    if n < 0 {
        s.append("-");
        proof {
            reveal_strlit("-");
        }
        let m: i64 = n as i64;
        let a: i64 = -m;
        push_decimal(s, a as u64);
        assert(final(s)@ =~= old(s)@ + int_text(n as int));
    } else {
        push_decimal(s, n as u64);
    }
}

/// The decimal text of `n`.
pub fn int_to_string(n: Integer) -> (t: String)
    ensures
        t@ == int_text(n as int),
{
    let mut t = String::new();
    push_int(&mut t, n);
    assert(t@ =~= int_text(n as int));
    t
}

impl Plate {
    /// The plate as `(width, height)`.
    pub fn describe(&self) -> (t: String)
        ensures
            t@ == plate_text(*self),
    {
        let mut s = String::new();
        s.append("(");
        push_int(&mut s, self.width);
        s.append(", ");
        push_int(&mut s, self.height);
        s.append(")");
        assert(s@ =~= plate_text(*self));
        s
    }

}

impl Config {
    /// The number of used square sizes.
    pub fn order(&self) -> (order: usize)
        ensures
            order == count_used(self.squares@),
    {
        let mut order: usize = 0;
        let mut i: usize = 0;
        while i < 256
            invariant
                i <= 256,
                order == count_used(self.squares@.take(i as int)),
                order <= i,
            decreases 256 - i,
        {
            assert(self.squares@.take(i + 1).drop_last() =~= self.squares@.take(i as int));
            if self.squares[i] {
                order += 1;
            }
            i += 1;
        }
        assert(self.squares@.take(256) =~= self.squares@);
        order
    }

    /// The used square sizes in braces, in increasing order, such as `{2, 5, 9}`.
    pub fn squares_to_string(&self) -> (t: String)
        ensures
            t@ == squares_text(self.squares@),
    {
        let mut s = String::new();
        s.append("{");
        let mut i: usize = 0;
        let mut listed_any = false;
        while i < 256
            invariant
                i <= 256,
                s@ == "{"@ + used_list(self.squares@, i as int),
                listed_any == (used_list(self.squares@, i as int).len() > 0),
            decreases 256 - i,
        {
            if self.squares[i] {
                if listed_any {
                    s.append(", ");
                }
                push_decimal(&mut s, i as u64);
                listed_any = true;
                proof {
                    lemma_decimal_nonempty(i as nat);
                }
            }
            i += 1;
            assert(s@ =~= "{"@ + used_list(self.squares@, i as int));
        }
        s.append("}");
        s
    }

    /// The description of the configuration, such as
    /// `Config: size: 10, squares: "{4}", plates: [(1, 11), (4, 4), (6, 0), (1, 11)]`.
    pub fn describe(&self) -> (t: String)
        ensures
            t@ == description_text(*self),
    {
        let mut s = String::new();
        s.append("Config: size: ");
        push_int(&mut s, self.size);
        s.append(", squares: \"");
        let set = self.squares_to_string();
        s.append(set.as_str());
        s.append("\", plates: [");
        let ghost head = s@;
        let mut i: usize = 0;
        while i < self.plates.len()
            invariant
                i <= self.plates@.len(),
                s@ == head + plates_text(self.plates@, i as int),
            decreases self.plates@.len() - i,
        {
            if i > 0 {
                s.append(", ");
            }
            let one = self.plates[i].describe();
            s.append(one.as_str());
            i += 1;
            assert(s@ =~= head + plates_text(self.plates@, i as int));
        }
        s.append("]");
        assert(s@ =~= description_text(*self));
        s
    }

    /// The report of a finished tiling of height `height`: `S` when `is_square`, else `R`.
    pub fn report(&self, is_square: bool, height: Integer) -> (t: String)
        ensures
            t@ == report_text(is_square, self.size as int, height as int, self.squares@),
    {
        let mut s = String::new();
        if is_square {
            s.append("S, W: ");
        } else {
            s.append("R, W: ");
        }
        push_int(&mut s, self.size);
        s.append(", H: ");
        push_int(&mut s, height);
        s.append(", ORDER: ");
        let order = self.order();
        push_decimal(&mut s, order as u64);
        s.append(", SET: ");
        let set = self.squares_to_string();
        s.append(set.as_str());
        assert(s@ =~= report_text(is_square, self.size as int, height as int, self.squares@));
        s
    }
}

proof fn lemma_decimal_nonempty(n: nat)
    ensures
        decimal(n).len() > 0,
    decreases n,
{
    if n >= 10 {
        lemma_decimal_nonempty(n / 10);
    }
}


} // verus!
