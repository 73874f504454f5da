//! The layout formatter: renders extended rationals to configurable text.
//!
//! Its branching mirrors the sign/zero/infinity case matrix of the
//! arithmetic: a small set of independent flags chooses explicit plus
//! signs, signed zeros and infinities, a forced `/1` denominator, and an
//! ASCII hyphen in place of the typographic minus sign.

use vstd::prelude::*;
use vstd::string::StringExecFns;

use crate::bignum::{nat_to_string, rat_sign};
use crate::digits::str_of_base;
use crate::ext::{abs_int, ExtVal};
use crate::rat_ext::MpqExt;

verus! {

/// The formatter's option set. Each flag is independent: an explicit
/// `+` on positive values, a sign on zero, a sign on positive infinity,
/// a forced `/1` denominator, and an ASCII hyphen instead of the
/// typographic minus.
#[derive(Clone, Copy, PartialEq, Eq, Structural, Debug)]
pub struct FracLayoutOptions {
    pub plus_sign: bool,
    pub signed_zero: bool,
    pub signed_inf: bool,
    pub denom_one: bool,
    pub hyphen_minus: bool,
}

impl FracLayoutOptions {
    /// No flag set.
    pub fn none() -> (r: Self)
        ensures
            r == (FracLayoutOptions {
                plus_sign: false,
                signed_zero: false,
                signed_inf: false,
                denom_one: false,
                hyphen_minus: false,
            }),
    {
        FracLayoutOptions {
            plus_sign: false,
            signed_zero: false,
            signed_inf: false,
            denom_one: false,
            hyphen_minus: false,
        }
    }

    /// Decodes the option set from its flag bits, lowest bit first in
    /// declaration order.
    pub fn from_bits(bits: u8) -> (r: Self)
        ensures
            r.plus_sign == (bits & 1 != 0),
            r.signed_zero == (bits & 2 != 0),
            r.signed_inf == (bits & 4 != 0),
            r.denom_one == (bits & 8 != 0),
            r.hyphen_minus == (bits & 16 != 0),
    {
        FracLayoutOptions {
            plus_sign: bits & 1 != 0,
            signed_zero: bits & 2 != 0,
            signed_inf: bits & 4 != 0,
            denom_one: bits & 8 != 0,
            hyphen_minus: bits & 16 != 0,
        }
    }
}

/// The minus sign a layout uses: an ASCII hyphen on request, else the
/// typographic minus.
pub open spec fn minus_char(o: FracLayoutOptions) -> char {
    if o.hyphen_minus {
        '-'
    } else {
        '\u{2212}'
    }
}

/// The sign prefix of a finite or infinite value under the options.
pub open spec fn sign_prefix(negative: bool, show_plus: bool, o: FracLayoutOptions) -> Seq<char> {
    if negative {
        seq![minus_char(o)]
    } else if show_plus {
        seq!['+']
    } else {
        Seq::empty()
    }
}

/// The single display string of an extended rational under the options.
pub open spec fn layout_spec(v: ExtVal, o: FracLayoutOptions) -> Seq<char> {
    match v {
        ExtVal::Nan => seq!['N', 'a', 'N'],
        ExtVal::Zero { sign } => {
            let prefix = if o.signed_zero {
                sign_prefix(!sign, o.plus_sign, o)
            } else {
                Seq::empty()
            };
            if o.denom_one {
                prefix + seq!['0', '/', '1']
            } else {
                prefix + seq!['0']
            }
        },
        ExtVal::Inf { sign } => sign_prefix(!sign, o.plus_sign || o.signed_inf, o) + seq![
            '\u{221e}',
        ],
        ExtVal::Fin { num, den } => {
            let digits = str_of_base(abs_int(num) as nat, 10);
            let prefix = sign_prefix(num < 0, o.plus_sign, o);
            if den == 1 && !o.denom_one {
                prefix + digits
            } else {
                prefix + digits + seq!['/'] + str_of_base(den as nat, 10)
            }
        },
    }
}

/// The structured rendering for math-typesetting consumers: an optional
/// sign character, a numerator string, and an optional denominator
/// string. The sign here is always the typographic minus.
pub struct ToMathStringResult {
    pub sign: Option<char>,
    pub num: String,
    pub den: Option<String>,
}

/// The sign field of the structured rendering.
pub open spec fn math_sign_spec(v: ExtVal, o: FracLayoutOptions) -> Option<char> {
    match v {
        ExtVal::Nan => None,
        ExtVal::Zero { sign } => if o.signed_zero {
            if sign {
                if o.plus_sign {
                    Some('+')
                } else {
                    None
                }
            } else {
                Some('\u{2212}')
            }
        } else {
            None
        },
        ExtVal::Inf { sign } => if sign {
            if o.plus_sign || o.signed_inf {
                Some('+')
            } else {
                None
            }
        } else {
            Some('\u{2212}')
        },
        ExtVal::Fin { num, .. } => if num < 0 {
            Some('\u{2212}')
        } else if o.plus_sign {
            Some('+')
        } else {
            None
        },
    }
}

/// The numerator field of the structured rendering.
pub open spec fn math_num_spec(v: ExtVal) -> Seq<char> {
    match v {
        ExtVal::Nan => seq!['N', 'a', 'N'],
        ExtVal::Zero { .. } => seq!['0'],
        ExtVal::Inf { .. } => seq!['\u{221e}'],
        ExtVal::Fin { num, .. } => str_of_base(abs_int(num) as nat, 10),
    }
}

/// The denominator field of the structured rendering.
pub open spec fn math_den_spec(v: ExtVal, o: FracLayoutOptions) -> Option<Seq<char>> {
    match v {
        ExtVal::Nan => None,
        ExtVal::Zero { .. } => if o.denom_one {
            Some(seq!['1'])
        } else {
            None
        },
        ExtVal::Inf { .. } => None,
        ExtVal::Fin { den, .. } => if den == 1 && !o.denom_one {
            None
        } else {
            Some(str_of_base(den as nat, 10))
        },
    }
}

/// Renders a value to a single string under a set of layout options.
pub trait ToLayoutString {
    type Options;

    fn to_layout_string(&self, options: Self::Options) -> String;
}

impl MpqExt {
    /// The single display string of this value under the options, as
    /// `layout_spec` describes.
    pub fn layout_string(&self, options: FracLayoutOptions) -> (r: String)
        ensures
            r@ == layout_spec(self@, options),
    {
        proof {
            reveal_strlit("NaN");
            reveal_strlit("0");
            reveal_strlit("0/1");
            reveal_strlit("+");
            reveal_strlit("-");
            reveal_strlit("\u{2212}");
            reveal_strlit("\u{221e}");
            reveal_strlit("/");
            reveal_strlit("1");
            assert("NaN"@ =~= seq!['N', 'a', 'N']);
            assert("0"@ =~= seq!['0']);
            assert("0/1"@ =~= seq!['0', '/', '1']);
            assert("+"@ =~= seq!['+']);
            assert("-"@ =~= seq!['-']);
            assert("\u{2212}"@ =~= seq!['\u{2212}']);
            assert("\u{221e}"@ =~= seq!['\u{221e}']);
            assert("/"@ =~= seq!['/']);
        }
        let minus: &str = if options.hyphen_minus {
            "-"
        } else {
            "\u{2212}"
        };
        match self {
            MpqExt::NaN => String::from_str("NaN"),
            MpqExt::Zero(s) => {
                let mut out = String::new();
                if options.signed_zero {
                    if *s {
                        if options.plus_sign {
                            out.append("+");
                        }
                    } else {
                        out.append(minus);
                    }
                }
                if options.denom_one {
                    out.append("0/1");
                } else {
                    out.append("0");
                }
                out
            },
            MpqExt::Inf(s) => {
                let mut out = String::new();
                if *s {
                    if options.plus_sign || options.signed_inf {
                        out.append("+");
                    }
                } else {
                    out.append(minus);
                }
                out.append("\u{221e}");
                out
            },
            MpqExt::Rational(q) => {
                let mut out = String::new();
                let neg = matches!(rat_sign(q), core::cmp::Ordering::Less);
                if neg {
                    out.append(minus);
                } else if options.plus_sign {
                    out.append("+");
                }
                let num = crate::bignum::rat_to_numerator(q);
                let num_str = nat_to_string(&num);
                out.append(num_str.as_str());
                let den = crate::bignum::rat_to_denominator(q);
                let den_is_one = crate::bignum::nat_eq(&den, &crate::bignum::nat_from_u64(1));
                if den_is_one && !options.denom_one {
                    return out;
                }
                out.append("/");
                let den_str = nat_to_string(&den);
                out.append(den_str.as_str());
                out
            },
        }
    }

    /// The structured sign/numerator/denominator rendering of this value
    /// under the options, as the `math_*_spec` functions describe.
    pub fn to_math_strings(&self, options: FracLayoutOptions) -> (r: ToMathStringResult)
        requires
            self.wf(),
        ensures
            r.sign == math_sign_spec(self@, options),
            r.num@ == math_num_spec(self@),
            match (r.den, math_den_spec(self@, options)) {
                (Some(d), Some(m)) => d@ == m,
                (None, None) => true,
                _ => false,
            },
    {
        proof {
            reveal_strlit("NaN");
            reveal_strlit("0");
            reveal_strlit("1");
            reveal_strlit("\u{221e}");
            assert("NaN"@ =~= seq!['N', 'a', 'N']);
            assert("0"@ =~= seq!['0']);
            assert("1"@ =~= seq!['1']);
            assert("\u{221e}"@ =~= seq!['\u{221e}']);
        }
        match self {
            MpqExt::NaN => ToMathStringResult {
                sign: None,
                num: String::from_str("NaN"),
                den: None,
            },
            MpqExt::Zero(s) => {
                let sign: Option<char> = if options.signed_zero {
                    if *s {
                        if options.plus_sign {
                            Some('+')
                        } else {
                            None
                        }
                    } else {
                        Some('\u{2212}')
                    }
                } else {
                    None
                };
                let den: Option<String> = if options.denom_one {
                    Some(String::from_str("1"))
                } else {
                    None
                };
                ToMathStringResult { sign, num: String::from_str("0"), den }
            },
            MpqExt::Inf(s) => {
                let sign: Option<char> = if *s {
                    if options.plus_sign || options.signed_inf {
                        Some('+')
                    } else {
                        None
                    }
                } else {
                    Some('\u{2212}')
                };
                ToMathStringResult { sign, num: String::from_str("\u{221e}"), den: None }
            },
            MpqExt::Rational(q) => {
                let neg = matches!(rat_sign(q), core::cmp::Ordering::Less);
                let sign: Option<char> = if neg {
                    Some('\u{2212}')
                } else if options.plus_sign {
                    Some('+')
                } else {
                    None
                };
                let num = crate::bignum::rat_to_numerator(q);
                let num_str = nat_to_string(&num);
                let den = crate::bignum::rat_to_denominator(q);
                let den_is_one = crate::bignum::nat_eq(&den, &crate::bignum::nat_from_u64(1));
                let den_out: Option<String> = if den_is_one && !options.denom_one {
                    None
                } else {
                    Some(nat_to_string(&den))
                };
                ToMathStringResult { sign, num: num_str, den: den_out }
            },
        }
    }

    /// The plain display string: `NaN`, signed `0` and `inf` literals, or
    /// the fraction's digits with an ASCII minus and the denominator
    /// omitted when it is 1.
    pub fn repr_string(&self) -> (r: String)
        requires
            self.wf(),
        ensures
            r@ == repr_spec(self@),
    {
        proof {
            reveal_strlit("NaN");
            reveal_strlit("0");
            reveal_strlit("-0");
            reveal_strlit("inf");
            reveal_strlit("-inf");
            reveal_strlit("-");
            reveal_strlit("/");
            assert("NaN"@ =~= seq!['N', 'a', 'N']);
            assert("0"@ =~= seq!['0']);
            assert("-0"@ =~= seq!['-', '0']);
            assert("inf"@ =~= seq!['i', 'n', 'f']);
            assert("-inf"@ =~= seq!['-', 'i', 'n', 'f']);
            assert("-"@ =~= seq!['-']);
            assert("/"@ =~= seq!['/']);
        }
        match self {
            MpqExt::NaN => String::from_str("NaN"),
            MpqExt::Zero(s) => if *s {
                String::from_str("0")
            } else {
                String::from_str("-0")
            },
            MpqExt::Inf(s) => if *s {
                String::from_str("inf")
            } else {
                String::from_str("-inf")
            },
            MpqExt::Rational(q) => {
                let mut out = String::new();
                if matches!(rat_sign(q), core::cmp::Ordering::Less) {
                    out.append("-");
                }
                let num = crate::bignum::rat_to_numerator(q);
                let num_str = nat_to_string(&num);
                out.append(num_str.as_str());
                let den = crate::bignum::rat_to_denominator(q);
                let den_is_one = crate::bignum::nat_eq(&den, &crate::bignum::nat_from_u64(1));
                if !den_is_one {
                    out.append("/");
                    let den_str = nat_to_string(&den);
                    out.append(den_str.as_str());
                }
                out
            },
        }
    }
}

/// The plain display string of an extended rational: `NaN`, `0`/`-0`,
/// `inf`/`-inf`, or the fraction's decimal digits with an ASCII minus and
/// the denominator omitted when it is 1.
pub open spec fn repr_spec(v: ExtVal) -> Seq<char> {
    match v {
        ExtVal::Nan => seq!['N', 'a', 'N'],
        ExtVal::Zero { sign } => if sign {
            seq!['0']
        } else {
            seq!['-', '0']
        },
        ExtVal::Inf { sign } => if sign {
            seq!['i', 'n', 'f']
        } else {
            seq!['-', 'i', 'n', 'f']
        },
        ExtVal::Fin { num, den } => {
            let digits = str_of_base(abs_int(num) as nat, 10);
            let prefix: Seq<char> = if num < 0 {
                seq!['-']
            } else {
                Seq::empty()
            };
            if den == 1 {
                prefix + digits
            } else {
                prefix + digits + seq!['/'] + str_of_base(den as nat, 10)
            }
        },
    }
}

impl ToLayoutString for MpqExt {
    type Options = FracLayoutOptions;

    /// Delegates to `layout_string`, which carries the contract.
    fn to_layout_string(&self, options: FracLayoutOptions) -> (r: String)
        ensures
            r@ == layout_spec(self@, options),
    {
        self.layout_string(options)
    }
}

} // verus!
