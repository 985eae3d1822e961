//! The attribute-argument grammar: a comma-separated list of `key = value`
//! assignments, validated against each attribute's schema.
//!
//! The grammar is strict: every segment must contain exactly one `=`, keys
//! may not repeat, unknown keys are rejected, a priority must be a decimal
//! `u32` literal, a flag name must be an identifier, and `invert` must be
//! `true` or `false`.

use vstd::prelude::*;

use crate::text::is_ident;
use crate::text::parse_dec;
use crate::text::split_char;
use crate::text::trim;
use crate::text::check_ident;
use crate::text::chars_eq_str;
use crate::text::parse_u32_chars;
use crate::text::split_chars;
use crate::text::trim_chars;
use crate::text::views_of;
use crate::OverrideError;

verus! {

/// One `key = value` argument, both sides trimmed.
#[derive(Debug)]
pub struct ArgPair {
    pub key: Vec<char>,
    pub value: Vec<char>,
}

impl View for ArgPair {
    type V = (Seq<char>, Seq<char>);

    open spec fn view(&self) -> (Seq<char>, Seq<char>) {
        (self.key@, self.value@)
    }
}

/// The views of a sequence of argument pairs.
pub open spec fn pair_views(ps: Seq<ArgPair>) -> Seq<(Seq<char>, Seq<char>)> {
    ps.map_values(|p: ArgPair| p@)
}

/// The trimmed `key = value` pair denoted by one comma-separated segment,
/// if the segment holds exactly one `=`.
pub open spec fn seg_pair(seg: Seq<char>) -> Option<(Seq<char>, Seq<char>)> {
    let parts = split_char(seg, '=');
    if parts.len() == 2 {
        Some((trim(parts[0]), trim(parts[1])))
    } else {
        None
    }
}

/// The `key = value` pairs of an argument text, if every comma-separated
/// segment holds exactly one `=`.
pub open spec fn arg_pairs(s: Seq<char>) -> Option<Seq<(Seq<char>, Seq<char>)>> {
    let segs = split_char(s, ',');
    if forall|i: int| 0 <= i < segs.len() ==> (#[trigger] seg_pair(segs[i])) is Some {
        Some(Seq::new(segs.len(), |i: int| seg_pair(segs[i]).unwrap()))
    } else {
        None
    }
}

/// Splits an argument text into its trimmed `key = value` pairs.
pub fn parse_arg_pairs(s: &Vec<char>) -> (r: Result<Vec<ArgPair>, OverrideError>)
    ensures
        match r {
            Ok(ps) => arg_pairs(s@) == Some(pair_views(ps@)),
            Err(e) => e == OverrideError::MalformedArguments && arg_pairs(s@) is None,
        },
{
    let segs = split_chars(s, ',');
    let ghost gsegs = split_char(s@, ',');
    let mut pairs: Vec<ArgPair> = Vec::new();
    let mut j: usize = 0;
    while j < segs.len()
        invariant
            j <= segs@.len(),
            views_of(segs@) == gsegs,
            gsegs == split_char(s@, ','),
            pairs@.len() == j,
            forall|k: int|
                0 <= k < j ==> (#[trigger] seg_pair(gsegs[k])) is Some && pair_views(pairs@)[k]
                    == seg_pair(gsegs[k]).unwrap(),
        decreases segs@.len() - j,
    {
        let parts = split_chars(&segs[j], '=');
        proof {
            assert(segs@[j as int]@ == gsegs[j as int]);
        }
        if parts.len() != 2 {
            proof {
                assert(seg_pair(gsegs[j as int]) is None);
            }
            return Err(OverrideError::MalformedArguments);
        }
        let key = trim_chars(&parts[0]);
        let value = trim_chars(&parts[1]);
        proof {
            assert(views_of(parts@)[0] == split_char(gsegs[j as int], '=')[0]);
            assert(views_of(parts@)[1] == split_char(gsegs[j as int], '=')[1]);
        }
        pairs.push(ArgPair { key, value });
        proof {
            assert(pair_views(pairs@) =~= pair_views(pairs@.drop_last()).push(
                pairs@.last()@,
            ));
        }
        j += 1;
    }
    proof {
        assert(arg_pairs(s@) is Some);
        assert(arg_pairs(s@).unwrap() =~= pair_views(pairs@));
    }
    Ok(pairs)
}

/// Accepts an empty (all-space) argument text and nothing else; the contract
/// of the argument-less attributes.
pub fn parse_no_args(args: &Vec<char>) -> (r: Result<(), OverrideError>)
    ensures
        r == if trim(args@).len() == 0 {
            Ok::<(), OverrideError>(())
        } else {
            Err::<(), OverrideError>(OverrideError::MalformedArguments)
        },
{
    let t = trim_chars(args);
    if t.len() == 0 {
        Ok(())
    } else {
        Err(OverrideError::MalformedArguments)
    }
}

/// What an `override_default` argument text denotes: implicit priority `1`
/// when empty, the given priority for a single `priority = <u32 literal>`,
/// and an error otherwise.
pub open spec fn spec_priority_args(s: Seq<char>) -> Result<u32, OverrideError> {
    if trim(s).len() == 0 {
        Ok(1u32)
    } else {
        match arg_pairs(s) {
            None => Err(OverrideError::MalformedArguments),
            Some(ps) => if ps.len() == 1 && ps[0].0 == "priority"@ {
                match parse_dec(ps[0].1) {
                    Some(n) => Ok(n),
                    None => Err(OverrideError::InvalidLiteral),
                }
            } else {
                Err(OverrideError::MalformedArguments)
            },
        }
    }
}

/// Parses the argument text of `override_default`.
pub fn parse_priority_args(args: &Vec<char>) -> (r: Result<u32, OverrideError>)
    ensures
        r == spec_priority_args(args@),
{
    let t = trim_chars(args);
    if t.len() == 0 {
        return Ok(1);
    }
    match parse_arg_pairs(args) {
        Err(e) => Err(e),
        Ok(pairs) => {
            if pairs.len() == 1 && chars_eq_str(&pairs[0].key, "priority") {
                match parse_u32_chars(&pairs[0].value) {
                    Some(n) => Ok(n),
                    None => Err(OverrideError::InvalidLiteral),
                }
            } else {
                Err(OverrideError::MalformedArguments)
            }
        },
    }
}

/// The arguments of an `override_flag` attribute: a required flag name, an
/// optional priority (default `1`) and an optional invert bit (default
/// `false`).
#[derive(Debug)]
pub struct FlagArgs {
    pub flag: Vec<char>,
    pub priority: u32,
    pub invert: bool,
}

/// The mathematical image of `FlagArgs`.
pub ghost struct FlagArgsView {
    pub flag: Seq<char>,
    pub priority: u32,
    pub invert: bool,
}

impl View for FlagArgs {
    type V = FlagArgsView;

    open spec fn view(&self) -> FlagArgsView {
        FlagArgsView { flag: self.flag@, priority: self.priority, invert: self.invert }
    }
}

/// The partial assignment built while walking an `override_flag` argument
/// list left to right.
pub ghost struct FlagFold {
    pub flag: Option<Seq<char>>,
    pub priority: Option<u32>,
    pub invert: Option<bool>,
}

/// One step of the `override_flag` schema walk: each key may appear once,
/// `flag` takes an identifier, `priority` a decimal `u32` literal, `invert`
/// the word `true` or `false`; anything else is rejected.
pub open spec fn flag_step(
    st: Result<FlagFold, OverrideError>,
    p: (Seq<char>, Seq<char>),
) -> Result<FlagFold, OverrideError> {
    match st {
        Err(e) => Err(e),
        Ok(f) => {
            if p.0 == "flag"@ {
                if f.flag is Some {
                    Err(OverrideError::MalformedArguments)
                } else if !is_ident(p.1) {
                    Err(OverrideError::MalformedArguments)
                } else {
                    Ok(FlagFold { flag: Some(p.1), priority: f.priority, invert: f.invert })
                }
            } else if p.0 == "priority"@ {
                if f.priority is Some {
                    Err(OverrideError::MalformedArguments)
                } else {
                    match parse_dec(p.1) {
                        Some(n) => Ok(
                            FlagFold { flag: f.flag, priority: Some(n), invert: f.invert },
                        ),
                        None => Err(OverrideError::InvalidLiteral),
                    }
                }
            } else if p.0 == "invert"@ {
                if f.invert is Some {
                    Err(OverrideError::MalformedArguments)
                } else if p.1 == "true"@ {
                    Ok(FlagFold { flag: f.flag, priority: f.priority, invert: Some(true) })
                } else if p.1 == "false"@ {
                    Ok(FlagFold { flag: f.flag, priority: f.priority, invert: Some(false) })
                } else {
                    Err(OverrideError::MalformedArguments)
                }
            } else {
                Err(OverrideError::MalformedArguments)
            }
        },
    }
}

/// The `override_flag` schema walk over a whole pair list.
pub open spec fn flag_fold(ps: Seq<(Seq<char>, Seq<char>)>) -> Result<FlagFold, OverrideError>
    decreases ps.len(),
{
    if ps.len() == 0 {
        Ok(FlagFold { flag: None, priority: None, invert: None })
    } else {
        flag_step(flag_fold(ps.drop_last()), ps.last())
    }
}

proof fn lemma_flag_fold_sticky(ps: Seq<(Seq<char>, Seq<char>)>, i: int)
    requires
        0 <= i <= ps.len(),
        flag_fold(ps.take(i)) is Err,
    ensures
        flag_fold(ps) == flag_fold(ps.take(i)),
    decreases ps.len() - i,
{
    if i == ps.len() {
        assert(ps.take(i) =~= ps);
    } else {
        assert(ps.take(i + 1).drop_last() =~= ps.take(i));
        assert(ps.take(i + 1).last() == ps[i]);
        lemma_flag_fold_sticky(ps, i + 1);
    }
}

/// What an `override_flag` argument text denotes.
pub open spec fn spec_flag_args(s: Seq<char>) -> Result<FlagArgsView, OverrideError> {
    match arg_pairs(s) {
        None => Err(OverrideError::MalformedArguments),
        Some(ps) => match flag_fold(ps) {
            Err(e) => Err(e),
            Ok(f) => match f.flag {
                None => Err(OverrideError::MalformedArguments),
                Some(fl) => Ok(
                    FlagArgsView {
                        flag: fl,
                        priority: match f.priority {
                            Some(n) => n,
                            None => 1u32,
                        },
                        invert: match f.invert {
                            Some(b) => b,
                            None => false,
                        },
                    },
                ),
            },
        },
    }
}

/// The view of an `override_flag` parse result.
pub open spec fn flag_result_view(r: Result<FlagArgs, OverrideError>) -> Result<
    FlagArgsView,
    OverrideError,
> {
    match r {
        Ok(fa) => Ok(fa@),
        Err(e) => Err(e),
    }
}

/// The view of an option of a character vector.
pub open spec fn opt_chars_view(o: Option<Vec<char>>) -> Option<Seq<char>> {
    match o {
        Some(v) => Some(v@),
        None => None,
    }
}

/// Parses the argument text of `override_flag`.
pub fn parse_flag_args(args: &Vec<char>) -> (r: Result<FlagArgs, OverrideError>)
    ensures
        flag_result_view(r) == spec_flag_args(args@),
{
    let pairs = match parse_arg_pairs(args) {
        Ok(ps) => ps,
        Err(e) => {
            return Err(e);
        },
    };
    let ghost gps = pair_views(pairs@);
    let mut flag: Option<Vec<char>> = None;
    let mut priority: Option<u32> = None;
    let mut invert: Option<bool> = None;
    let mut j: usize = 0;
    while j < pairs.len()
        invariant
            j <= pairs@.len(),
            gps == pair_views(pairs@),
            arg_pairs(args@) == Some(gps),
            flag_fold(gps.take(j as int)) == Ok::<FlagFold, OverrideError>(
                FlagFold {
                    flag: opt_chars_view(flag),
                    priority,
                    invert,
                },
            ),
        decreases pairs@.len() - j,
    {
        proof {
            assert(gps.take(j + 1).drop_last() =~= gps.take(j as int));
            assert(gps.take(j + 1).last() == gps[j as int]);
            assert(gps[j as int] == pairs@[j as int]@);
        }
        let p = &pairs[j];
        if chars_eq_str(&p.key, "flag") {
            if flag.is_some() {
                proof {
                    lemma_flag_fold_sticky(gps, j + 1);
                }
                return Err(OverrideError::MalformedArguments);
            }
            if !check_ident(&p.value) {
                proof {
                    lemma_flag_fold_sticky(gps, j + 1);
                }
                return Err(OverrideError::MalformedArguments);
            }
            flag = Some(p.value.clone());
        } else if chars_eq_str(&p.key, "priority") {
            if priority.is_some() {
                proof {
                    lemma_flag_fold_sticky(gps, j + 1);
                }
                return Err(OverrideError::MalformedArguments);
            }
            match parse_u32_chars(&p.value) {
                Some(n) => {
                    priority = Some(n);
                },
                None => {
                    proof {
                        lemma_flag_fold_sticky(gps, j + 1);
                    }
                    return Err(OverrideError::InvalidLiteral);
                },
            }
        } else if chars_eq_str(&p.key, "invert") {
            if invert.is_some() {
                proof {
                    lemma_flag_fold_sticky(gps, j + 1);
                }
                return Err(OverrideError::MalformedArguments);
            }
            if chars_eq_str(&p.value, "true") {
                invert = Some(true);
            } else if chars_eq_str(&p.value, "false") {
                invert = Some(false);
            } else {
                proof {
                    lemma_flag_fold_sticky(gps, j + 1);
                }
                return Err(OverrideError::MalformedArguments);
            }
        } else {
            proof {
                lemma_flag_fold_sticky(gps, j + 1);
            }
            return Err(OverrideError::MalformedArguments);
        }
        j += 1;
    }
    proof {
        assert(gps.take(pairs@.len() as int) =~= gps);
    }
    match flag {
        None => Err(OverrideError::MalformedArguments),
        Some(f) => Ok(
            FlagArgs {
                flag: f,
                priority: match priority {
                    Some(n) => n,
                    None => 1,
                },
                invert: match invert {
                    Some(b) => b,
                    None => false,
                },
            },
        ),
    }
}

} // verus!
