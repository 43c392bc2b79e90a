//! The builder: source text in, resolved instruction sequence out.
//!
//! Building has two concerns.  Non-command characters are dropped silently
//! (they are comments), and every bracket is resolved to a branch target:
//! the instruction *after* its syntactic partner.  An unmatched bracket
//! fails the build with an error naming the offending position among the
//! commands.

use vstd::prelude::*;
use vstd::string::*;
use crate::brackets::bad_at;
use crate::brackets::close_of;
use crate::brackets::depth;
use crate::brackets::has_close;
use crate::brackets::has_open;
use crate::brackets::lemma_close_unique;
use crate::brackets::lemma_open_unique;
use crate::brackets::matches_at;
use crate::brackets::well_bracketed;
use crate::brackets::open_of;
use crate::decimal::push_dec;
use crate::errors::BuildError;
use crate::errors::msg_unmatched_close;
use crate::errors::msg_unmatched_open;
use crate::tokens::BfToken;
use crate::tokens::Program;

verus! {

/// One of the eight recognized command characters.
pub open spec fn is_command(c: char) -> bool {
    c == '<' || c == '>' || c == '+' || c == '-' || c == '.' || c == ',' || c == '[' || c == ']'
}

/// The source with every non-command character dropped.  Non-command
/// characters are comments: they carry no meaning at all.
pub open spec fn commands_of(s: Seq<char>) -> Seq<char>
    decreases s.len(),
{
    if s.len() == 0 {
        Seq::empty()
    } else {
        let rest = commands_of(s.drop_last());
        if is_command(s.last()) {
            rest.push(s.last())
        } else {
            rest
        }
    }
}

/// Dropping non-commands leaves only commands behind.
pub proof fn lemma_commands_are_commands(s: Seq<char>)
    ensures
        forall|i: int|
            0 <= i < commands_of(s).len() ==> is_command(#[trigger] commands_of(s)[i]),
    decreases s.len(),
{
    if s.len() > 0 {
        lemma_commands_are_commands(s.drop_last());
        let rest = commands_of(s.drop_last());
        assert forall|i: int|
            0 <= i < commands_of(s).len() implies is_command(#[trigger] commands_of(s)[i]) by {
            if is_command(s.last()) {
                assert(commands_of(s) == rest.push(s.last()));
                if i < rest.len() {
                    assert(commands_of(s)[i] == rest[i]);
                } else {
                    assert(commands_of(s)[i] == s.last());
                }
            } else {
                assert(commands_of(s) == rest);
            }
        }
    }
}

/// The instruction a command sequence demands at position `i`: for a
/// bracket, a jump whose target is one past the bracket's syntactic
/// partner, so that execution resumes at the instruction following it.
pub open spec fn token_at(cmds: Seq<char>, i: int) -> BfToken {
    let c = cmds[i];
    if c == '>' {
        BfToken::IncermentDataPtr
    } else if c == '<' {
        BfToken::DecrementDataPtr
    } else if c == '+' {
        BfToken::IncrementCurrent
    } else if c == '-' {
        BfToken::DecrementCurrent
    } else if c == '.' {
        BfToken::OutputByte
    } else if c == ',' {
        BfToken::InputByte
    } else if c == '[' {
        BfToken::JumpStart((close_of(cmds, i) + 1) as usize)
    } else {
        BfToken::JumpEnd((open_of(cmds, i) + 1) as usize)
    }
}

/// The whole resolved program a command sequence demands.
pub open spec fn spec_tokens(cmds: Seq<char>) -> Seq<BfToken> {
    Seq::new(cmds.len(), |i: int| token_at(cmds, i))
}

/// The message of the build error raised at an unmatched bracket.
pub open spec fn err_msg_at(cmds: Seq<char>, k: int) -> Seq<char> {
    if cmds[k] == '[' {
        msg_unmatched_open(k as nat)
    } else {
        msg_unmatched_close(k as nat)
    }
}

/// What building a source whose command sequence is `cmds` must produce:
/// the fully resolved program exactly when every bracket has a partner,
/// and otherwise the error for the first unmatched bracket.
pub open spec fn build_result_matches(cmds: Seq<char>, r: Result<Program, BuildError>) -> bool {
    match r {
        Ok(p) => {
            &&& well_bracketed(cmds)
            &&& p@ == spec_tokens(cmds)
        },
        Err(e) => {
            &&& !well_bracketed(cmds)
            &&& exists|k: int|
                {
                    &&& 0 <= k < cmds.len()
                    &&& #[trigger] bad_at(cmds, k)
                    &&& forall|k2: int| 0 <= k2 < k ==> !#[trigger] bad_at(cmds, k2)
                    &&& e@ == err_msg_at(cmds, k)
                }
        },
    }
}

/// The build-and-run pipeline, as two associated operations.
pub struct BFI;

impl BFI {
    /// Keeps exactly the command characters of `code`, in order.
    fn filter_commands(code: &str) -> (cs: Vec<char>)
        ensures
            cs@ == commands_of(code@),
    {
        let n = code.unicode_len();
        let mut cs: Vec<char> = Vec::new();
        let mut i: usize = 0;
        while i < n
            invariant
                i <= n,
                n == code@.len(),
                cs@ == commands_of(code@.subrange(0, i as int)),
            decreases n - i,
        {
            let c = code.get_char(i);
            if c == '<' || c == '>' || c == '+' || c == '-' || c == '.' || c == ','
                || c == '[' || c == ']' {
                cs.push(c);
            }
            proof {
                let pre = code@.subrange(0, i + 1);
                assert(pre.drop_last() =~= code@.subrange(0, i as int));
                assert(pre.last() == code@[i as int]);
            }
            i += 1;
        }
        proof {
            assert(code@.subrange(0, n as int) =~= code@);
        }
        cs
    }

    /// Scans forward from the open bracket at `jump_start_location` for its
    /// syntactic partner, skipping over nested pairs; fails when the scan
    /// runs off the end of the commands.
    pub fn locate_jump_end(jump_start_location: usize, program: &Vec<char>) -> (r: Result<
        usize,
        BuildError,
    >)
        requires
            jump_start_location < program@.len(),
            program@[jump_start_location as int] == '[',
        ensures
            match r {
                Ok(j) => matches_at(program@, jump_start_location as int, j as int),
                Err(e) => {
                    &&& !has_close(program@, jump_start_location as int)
                    &&& e@ == msg_unmatched_open(jump_start_location as nat)
                },
            },
    {
        let ghost cmds = program@;
        let ghost start = jump_start_location as int;
        let len = program.len();
        let mut to_skip: usize = 0;
        let mut curr_inst: usize = jump_start_location + 1;
        while curr_inst < len
            invariant
                jump_start_location < cmds.len(),
                cmds == program@,
                len == cmds.len(),
                cmds[start] == '[',
                start == jump_start_location as int,
                start + 1 <= curr_inst as int <= cmds.len(),
                to_skip as int == depth(cmds, start + 1, curr_inst as int),
                to_skip as int <= curr_inst as int - (start + 1),
                forall|k: int|
                    start + 1 <= k <= curr_inst as int ==> #[trigger] depth(cmds, start + 1, k)
                        >= 0,
                forall|k: int|
                    start + 1 <= k < curr_inst as int ==> !(cmds[k] == ']' && #[trigger] depth(
                        cmds,
                        start + 1,
                        k,
                    ) == 0),
            decreases cmds.len() - curr_inst as int,
        {
            let c = program[curr_inst];
            proof {
                assert(depth(cmds, start + 1, curr_inst + 1) == depth(cmds, start + 1, curr_inst as int)
                    + crate::brackets::bracket_delta(cmds[curr_inst as int]));
            }
            if c == '[' {
                to_skip += 1;
            } else if c == ']' {
                if to_skip > 0 {
                    to_skip -= 1;
                } else {
                    proof {
                        assert(matches_at(cmds, start, curr_inst as int));
                    }
                    return Ok(curr_inst);
                }
            }
            curr_inst += 1;
        }
        proof {
            assert forall|j: int| !matches_at(cmds, start, j) by {
                if matches_at(cmds, start, j) {
                    assert(start + 1 <= j < cmds.len());
                    assert(cmds[j] == ']' && depth(cmds, start + 1, j) == 0);
                }
            }
        }
        let mut m = String::from_str("Failed to find end of jump at instruction ");
        push_dec(jump_start_location, &mut m);
        Err(BuildError::new(m))
    }

    /// Converts source text into a resolved program.
    ///
    /// Characters other than the eight commands are dropped silently.  Every
    /// open bracket is resolved to the instruction after its matching close,
    /// and every close to the instruction after its matching open; the first
    /// bracket without a partner fails the build with an error naming its
    /// position among the commands.  Nothing outside the result is touched.
    pub fn build(code: String) -> (r: Result<Program, BuildError>)
        ensures
            build_result_matches(commands_of(code@), r),
            r.is_ok() <==> well_bracketed(commands_of(code@)),
    {
        let cs = Self::filter_commands(code.as_str());
        let ghost cmds = cs@;
        let n = cs.len();
        let mut program: Program = Vec::new();
        let mut jump_locations: Vec<Option<usize>> = Vec::new();
        let mut f: usize = 0;
        while f < n
            invariant
                jump_locations@.len() == f as int <= n as int,
                forall|j: int| 0 <= j < f as int ==> #[trigger] jump_locations@[j] is None,
            decreases n - f,
        {
            jump_locations.push(None);
            f += 1;
        }
        let mut i: usize = 0;
        while i < n
            invariant
                n == cmds.len(),
                cmds == cs@,
                cmds == commands_of(code@),
                i <= n,
                program@.len() == i as int,
                jump_locations@.len() == n as int,
                forall|r: int| 0 <= r < i as int ==> #[trigger] program@[r] == token_at(cmds, r),
                forall|r: int| 0 <= r < i as int ==> !#[trigger] bad_at(cmds, r),
                forall|j: int|
                    0 <= j < n as int && #[trigger] jump_locations@[j] is Some ==> {
                        &&& (jump_locations@[j]->Some_0 as int) < i as int
                        &&& matches_at(cmds, jump_locations@[j]->Some_0 as int, j)
                    },
                forall|x: int, j: int|
                    0 <= x < i as int && #[trigger] matches_at(cmds, x, j) ==> jump_locations@[j]
                        == Some(x as usize),
            decreases n - i,
        {
            let c = cs[i];
            let token: BfToken;
            if c == '>' {
                token = BfToken::IncermentDataPtr;
            } else if c == '<' {
                token = BfToken::DecrementDataPtr;
            } else if c == '+' {
                token = BfToken::IncrementCurrent;
            } else if c == '-' {
                token = BfToken::DecrementCurrent;
            } else if c == '.' {
                token = BfToken::OutputByte;
            } else if c == ',' {
                token = BfToken::InputByte;
            } else if c == '[' {
                match Self::locate_jump_end(i, &cs) {
                    Ok(jump_end_location) => {
                        proof {
                            let j0 = close_of(cmds, i as int);
                            assert(matches_at(cmds, i as int, jump_end_location as int));
                            assert(matches_at(cmds, i as int, j0));
                            lemma_close_unique(cmds, i as int, j0, jump_end_location as int);
                        }
                        jump_locations.set(jump_end_location, Some(i));
                        proof {
                            assert forall|x: int, j: int|
                                0 <= x < i + 1 && #[trigger] matches_at(cmds, x, j) implies
                                jump_locations@[j] == Some(x as usize) by {
                                if j == jump_end_location as int {
                                    lemma_open_unique(cmds, x, i as int, j);
                                } else if x == i as int {
                                    lemma_close_unique(cmds, i as int, j, jump_end_location as int);
                                }
                            }
                        }
                        token = BfToken::JumpStart(jump_end_location + 1);
                    },
                    Err(e) => {
                        proof {
                            assert(bad_at(cmds, i as int));
                            assert(!well_bracketed(cmds)) by {
                                if well_bracketed(cmds) {
                                    assert(cmds[i as int] == '[');
                                    assert(has_close(cmds, i as int));
                                }
                            }
                            assert(cmds == commands_of(code@));
                            assert(e@ == err_msg_at(cmds, i as int));
                            assert(exists|k: int|
                                {
                                    &&& 0 <= k < cmds.len()
                                    &&& #[trigger] bad_at(cmds, k)
                                    &&& forall|k2: int|
                                        0 <= k2 < k ==> !#[trigger] bad_at(cmds, k2)
                                    &&& e@ == err_msg_at(cmds, k)
                                });
                        }
                        return Err(e);
                    },
                }
            } else {
                proof {
                    lemma_commands_are_commands(code@);
                    assert(cmds == commands_of(code@));
                    assert(is_command(commands_of(code@)[i as int]));
                    assert(c == ']');
                }
                match jump_locations[i] {
                    Some(jump_start_location) => {
                        proof {
                            let x0 = open_of(cmds, i as int);
                            assert(matches_at(cmds, jump_start_location as int, i as int));
                            assert(matches_at(cmds, x0, i as int));
                            lemma_open_unique(cmds, x0, jump_start_location as int, i as int);
                        }
                        token = BfToken::JumpEnd(jump_start_location + 1);
                    },
                    None => {
                        proof {
                            assert forall|x: int| !matches_at(cmds, x, i as int) by {
                                if matches_at(cmds, x, i as int) {
                                    assert(0 <= x < i as int);
                                }
                            }
                            assert(!has_open(cmds, i as int));
                            assert(bad_at(cmds, i as int));
                            assert(!well_bracketed(cmds)) by {
                                if well_bracketed(cmds) {
                                    assert(cmds[i as int] == ']');
                                    assert(has_open(cmds, i as int));
                                }
                            }
                        }
                        let mut m = String::from_str("Failed to find jump start for ");
                        push_dec(i, &mut m);
                        let e = BuildError::new(m);
                        proof {
                            assert(cmds == commands_of(code@));
                            assert(e@ == err_msg_at(cmds, i as int));
                            assert(exists|k: int|
                                {
                                    &&& 0 <= k < cmds.len()
                                    &&& #[trigger] bad_at(cmds, k)
                                    &&& forall|k2: int|
                                        0 <= k2 < k ==> !#[trigger] bad_at(cmds, k2)
                                    &&& e@ == err_msg_at(cmds, k)
                                });
                        }
                        return Err(e);
                    },
                }
            }
            proof {
                assert(token == token_at(cmds, i as int));
                assert(!bad_at(cmds, i as int));
            }
            program.push(token);
            i += 1;
        }
        proof {
            assert(program@ =~= spec_tokens(cmds));
            assert forall|k: int|
                0 <= k < cmds.len() implies {
                &&& (cmds[k] == '[' ==> has_close(cmds, k))
                &&& (cmds[k] == ']' ==> has_open(cmds, k))
            } by {
                assert(!bad_at(cmds, k));
            }
        }
        Ok(program)
    }
}

} // verus!
