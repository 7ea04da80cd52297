//! Uppercase hexadecimal rendering of an [`Integer`].
//!
//! Each limb is printed as sixteen uppercase hexadecimal digits, most
//! significant limb first, and the digit stream is grouped into byte pairs,
//! a space following each pair (including the last).  A leading `-` marks a
//! negative value.

use vstd::prelude::*;

verus! {

use vstd::arithmetic::div_mod::lemma_div_denominator;
use vstd::string::StringExecFns;
use crate::integer::Integer;

/// The uppercase hexadecimal digit character for `d` in `[0, 16)`.
pub open spec fn hex_char(d: int) -> char {
    if d == 0 {
        '0'
    } else if d == 1 {
        '1'
    } else if d == 2 {
        '2'
    } else if d == 3 {
        '3'
    } else if d == 4 {
        '4'
    } else if d == 5 {
        '5'
    } else if d == 6 {
        '6'
    } else if d == 7 {
        '7'
    } else if d == 8 {
        '8'
    } else if d == 9 {
        '9'
    } else if d == 10 {
        'A'
    } else if d == 11 {
        'B'
    } else if d == 12 {
        'C'
    } else if d == 13 {
        'D'
    } else if d == 14 {
        'E'
    } else {
        'F'
    }
}

/// Sixteen raised to `j`.
pub open spec fn pow16(j: nat) -> int
    decreases j,
{
    if j == 0 {
        1
    } else {
        16 * pow16((j - 1) as nat)
    }
}

/// The base-16 digit of `l` at position `j`, counting from the least
/// significant digit.
pub open spec fn nibble(l: u64, j: nat) -> int {
    ((l as int) / pow16(j)) % 16
}

/// The first `g` space-terminated digit pairs of `l`'s sixteen-digit
/// rendering, most significant pair first.
pub open spec fn limb_groups(l: u64, g: nat) -> Seq<char>
    decreases g,
{
    if g == 0 {
        Seq::empty()
    } else {
        limb_groups(l, (g - 1) as nat) + seq![
            hex_char(nibble(l, (17 - 2 * g) as nat)),
            hex_char(nibble(l, (16 - 2 * g) as nat)),
            ' ',
        ]
    }
}

/// Full rendering of one limb: eight space-terminated digit pairs.
pub open spec fn limb_hex(l: u64) -> Seq<char> {
    limb_groups(l, 8)
}

/// Rendering of a magnitude, most significant limb first.
pub open spec fn limbs_hex(s: Seq<u64>) -> Seq<char>
    decreases s.len(),
{
    if s.len() == 0 {
        Seq::empty()
    } else {
        limb_hex(s.last()) + limbs_hex(s.drop_last())
    }
}

/// Every power of sixteen is positive.
proof fn lemma_pow16_pos(j: nat)
    ensures
        pow16(j) >= 1,
    decreases j,
{
    if j > 0 {
        lemma_pow16_pos((j - 1) as nat);
    }
}

/// The single-character string for the hexadecimal digit `d`.
fn hex_digit_str(d: u64) -> (r: &'static str)
    requires
        d < 16,
    ensures
        r@.len() == 1,
        r@[0] == hex_char(d as int),
{
    proof {
        reveal_strlit("0");
        reveal_strlit("1");
        reveal_strlit("2");
        reveal_strlit("3");
        reveal_strlit("4");
        reveal_strlit("5");
        reveal_strlit("6");
        reveal_strlit("7");
        reveal_strlit("8");
        reveal_strlit("9");
        reveal_strlit("A");
        reveal_strlit("B");
        reveal_strlit("C");
        reveal_strlit("D");
        reveal_strlit("E");
        reveal_strlit("F");
    }
    if d == 0 {
        "0"
    } else if d == 1 {
        "1"
    } else if d == 2 {
        "2"
    } else if d == 3 {
        "3"
    } else if d == 4 {
        "4"
    } else if d == 5 {
        "5"
    } else if d == 6 {
        "6"
    } else if d == 7 {
        "7"
    } else if d == 8 {
        "8"
    } else if d == 9 {
        "9"
    } else if d == 10 {
        "A"
    } else if d == 11 {
        "B"
    } else if d == 12 {
        "C"
    } else if d == 13 {
        "D"
    } else if d == 14 {
        "E"
    } else {
        "F"
    }
}

/// Appends the sixteen-digit grouped rendering of one limb.
fn append_limb_hex(out: &mut String, l: u64)
    ensures
        final(out)@ == old(out)@ + limb_hex(l),
{
    let mut digits: Vec<u64> = Vec::new();
    let mut x = l;
    let mut j: usize = 0;
    while j < 16
        invariant
            j <= 16,
            digits@.len() == j,
            x as int == (l as int) / pow16(j as nat),
            forall|t: int| 0 <= t < j ==> digits@[t] == nibble(l, t as nat),
            forall|t: int| 0 <= t < j ==> digits@[t] < 16,
        decreases 16 - j,
    {
        digits.push(x % 16);
        proof {
            lemma_pow16_pos(j as nat);
            lemma_div_denominator(l as int, pow16(j as nat), 16);
        }
        x = x / 16;
        j = j + 1;
    }
    let mut g: usize = 0;
    while g < 8
        invariant
            g <= 8,
            digits@.len() == 16,
            forall|t: int| 0 <= t < 16 ==> digits@[t] == nibble(l, t as nat),
            forall|t: int| 0 <= t < 16 ==> digits@[t] < 16,
            out@ == old(out)@ + limb_groups(l, g as nat),
        decreases 8 - g,
    {
        let hi = digits[15 - 2 * g];
        let lo = digits[14 - 2 * g];
        let ghost before = out@;
        let s1 = hex_digit_str(hi);
        out.append(s1);
        let s2 = hex_digit_str(lo);
        out.append(s2);
        proof {
            reveal_strlit(" ");
        }
        out.append(" ");
        proof {
            assert(17 - 2 * (g + 1) == 15 - 2 * g);
            assert(16 - 2 * (g + 1) == 14 - 2 * g);
            assert(out@ =~= before + seq![
                hex_char(nibble(l, (15 - 2 * g) as nat)),
                hex_char(nibble(l, (14 - 2 * g) as nat)),
                ' ',
            ]);
            assert(out@ =~= old(out)@ + limb_groups(l, (g + 1) as nat));
        }
        g = g + 1;
    }
}

impl Integer {
    /// The character sequence that [`Integer::to_hex`] produces: an
    /// optional minus sign, then each limb as a grouped run of sixteen
    /// uppercase hexadecimal digits, most significant limb first.
    pub open spec fn hex_spec(self) -> Seq<char> {
        (if self.negative {
            seq!['-']
        } else {
            Seq::<char>::empty()
        }) + limbs_hex(self.value@)
    }

    /// Renders this value in grouped uppercase hexadecimal.
    pub fn to_hex(&self) -> (r: String)
        ensures
            r@ == self.hex_spec(),
    {
        let mut out = String::new();
        if self.negative {
            proof {
                reveal_strlit("-");
            }
            out.append("-");
        }
        let ghost sign_part: Seq<char> = if self.negative {
            seq!['-']
        } else {
            Seq::<char>::empty()
        };
        proof {
            assert(out@ =~= sign_part);
        }
        let n = self.value.len();
        proof {
            assert(self.value@.take(n as int) =~= self.value@);
        }
        let mut k = n;
        while k > 0
        invariant
            k <= n,
            n == self.value@.len(),
            sign_part + limbs_hex(self.value@) == out@ + limbs_hex(self.value@.take(k as int)),
            sign_part == (if self.negative {
                seq!['-']
            } else {
                Seq::<char>::empty()
            }),
        decreases k,
        {
            let ghost before = out@;
            let ghost s = self.value@;
            append_limb_hex(&mut out, self.value[k - 1]);
            proof {
                assert(s.take(k as int).last() == s[k - 1]);
                assert(s.take(k as int).drop_last() =~= s.take(k - 1));
                assert(limbs_hex(s.take(k as int)) == limb_hex(s[k - 1]) + limbs_hex(
                    s.take(k - 1),
                ));
                assert(before + limbs_hex(s.take(k as int)) =~= out@ + limbs_hex(s.take(k - 1)));
            }
            k = k - 1;
        }
        proof {
            assert(self.value@.take(0) =~= Seq::<u64>::empty());
            assert(out@ =~= sign_part + limbs_hex(self.value@));
        }
        out
    }
}

} // verus!
