//! The rule of an automaton: on how many living neighbours a cell is born,
//! and on how many it survives.

use vstd::prelude::*;
use vstd::string::StringSliceAdditionalSpecFns;
use crate::error::LifeError;

verus! {

pub const LIFE: &'static str = "3-23";

pub const REPLICATOR: &'static str = "1357-1357";

pub const SEEDS: &'static str = "2-";

pub const NODEATH: &'static str = "3-012345678";

pub const LIFE34: &'static str = "34-34";

pub const DIAMOEBA: &'static str = "35678-5678";

pub const X22: &'static str = "36-125";

pub const HIGHLIFE: &'static str = "36-23";

pub const DAYNIGHT: &'static str = "3678-34678";

pub const MORLEY: &'static str = "368-245";

pub const ANNEAL: &'static str = "4678-35678";

/// The byte `-`, which parts the two sides of a rule.
pub const DASH: u8 = 45;

/// The byte `0`.
pub const ZERO: u8 = 48;

/// Whether `c` is one of the digits `0` to `8`: a cell has eight neighbours,
/// so `9` counts nothing.
pub open spec fn is_count_digit(c: u8) -> bool {
    ZERO <= c <= ZERO + 8
}

/// The byte that spells the count `n`.
pub open spec fn digit(n: int) -> u8 {
    (ZERO + n) as u8
}

/// Whether `c` occurs in `text` at a place from `lo` up to, not including, `hi`.
pub open spec fn occurs(text: Seq<u8>, lo: int, hi: int, c: u8) -> bool {
    exists|q: int| lo <= q < hi && #[trigger] text[q] == c
}

/// Whether `text` is a rule whose `-` stands at `sep`: every other byte is a
/// digit from `0` to `8`.
pub open spec fn is_rule(text: Seq<u8>, sep: int) -> bool {
    &&& 0 <= sep < text.len()
    &&& text[sep] == DASH
    &&& forall|q: int| 0 <= q < text.len() && q != sep ==> is_count_digit(#[trigger] text[q])
}

/// For each number of living neighbours from 0 to 8, whether a dead cell is
/// born (`b`) and whether a living cell survives (`s`).
#[derive(Clone, Copy, Debug)]
pub struct Rules {
    pub b: [bool; 9],
    pub s: [bool; 9],
}

impl Rules {
    /// Whether these are the tables that `text` spells out around the `-` at
    /// `sep`: a count is in a table exactly if its digit occurs on that side,
    /// however often and in whatever order.
    pub open spec fn spelled_by(self, text: Seq<u8>, sep: int) -> bool {
        &&& forall|n: int| 0 <= n < 9 ==> #[trigger] self.b@[n] == occurs(text, 0, sep, digit(n))
        &&& forall|n: int|
            0 <= n < 9 ==> #[trigger] self.s@[n] == occurs(
                text,
                sep + 1,
                text.len() as int,
                digit(n),
            )
    }

    /// Whether a cell that is alive or not, with `n` living neighbours, is
    /// alive in the next generation.
    pub open spec fn lives(self, alive: bool, n: int) -> bool {
        if alive {
            self.s@[n]
        } else {
            self.b@[n]
        }
    }

    /// Reads a rule of the form `<birth digits>-<survival digits>`. Either
    /// side may be empty. Anything else is refused: no `-` or more than one,
    /// or a byte that is not a digit from `0` to `8`.
    pub fn new(s: &str) -> (r: Result<Rules, LifeError>)
        ensures
            match r {
                Ok(rules) => exists|sep: int|
                    #[trigger] is_rule(s.spec_bytes(), sep) && rules.spelled_by(
                        s.spec_bytes(),
                        sep,
                    ),
                Err(e) => e == LifeError::RuleFormat && forall|sep: int|
                    !#[trigger] is_rule(s.spec_bytes(), sep),
            },
    {
        let text = s.as_bytes();
        let mut tb: [bool; 9] = [false; 9];
        let mut ts: [bool; 9] = [false; 9];
        let mut dash: Option<usize> = None;
        let mut k: usize = 0;
        while k < text.len()
            invariant
                k <= text@.len(),
                text@ == s.spec_bytes(),
                match dash {
                    Some(p) => {
                        &&& p < k
                        &&& text@[p as int] == DASH
                        &&& forall|q: int| 0 <= q < k && q != p ==> is_count_digit(#[trigger] text@[q])
                        &&& forall|n: int|
                            0 <= n < 9 ==> #[trigger] tb@[n] == occurs(text@, 0, p as int, digit(n))
                        &&& forall|n: int|
                            0 <= n < 9 ==> #[trigger] ts@[n] == occurs(
                                text@,
                                p + 1,
                                k as int,
                                digit(n),
                            )
                    },
                    None => {
                        &&& forall|q: int| 0 <= q < k ==> is_count_digit(#[trigger] text@[q])
                        &&& forall|n: int|
                            0 <= n < 9 ==> #[trigger] tb@[n] == occurs(text@, 0, k as int, digit(n))
                        &&& forall|n: int| 0 <= n < 9 ==> !#[trigger] ts@[n]
                    },
                },
            decreases text@.len() - k,
        {
            let c: u8 = text[k];
            if c == DASH {
                match dash {
                    Some(_) => {
                        return Err(LifeError::RuleFormat);
                    },
                    None => {
                        dash = Some(k);
                    },
                }
            } else if ZERO <= c && c <= ZERO + 8 {
                let d: usize = (c - ZERO) as usize;
                match dash {
                    Some(_) => {
                        ts[d] = true;
                    },
                    None => {
                        tb[d] = true;
                    },
                }
            } else {
                return Err(LifeError::RuleFormat);
            }
            k += 1;
        }
        match dash {
            Some(p) => {
                assert(is_rule(text@, p as int));
                Ok(Rules { b: tb, s: ts })
            },
            None => Err(LifeError::RuleFormat),
        }
    }
}

} // verus!
