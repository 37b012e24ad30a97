//! Partitioning a config file's lines around one `Host <alias>` block.
//!
//! The parser walks the lines once, in a three-state mode: `Before` until
//! the matching `Host` line is seen, `Matching` while inside the block, and
//! `After` from the block's terminating blank line on.  Its meaning is given
//! by the spec-level machine [`split_step`] / [`split_fold`], and the
//! executable [`split_lines_on_host`] is proved to compute exactly that.

use vstd::prelude::*;

use crate::tokens::{
    first_token, lemma_tokens_ws_free, line_first_two_tokens, second_token_or_empty, ws_free,
};

verus! {

/// Parser mode: before the matched `Host` line, inside the matched block,
/// or past the block's terminating blank line.
pub enum Mode {
    Before,
    Matching,
    After,
}

/// Mathematical model of a partitioned file: the untouched lines around the
/// matched block and the block's four extracted fields.
#[verifier::ext_equal]
pub ghost struct BlockModel {
    pub before: Seq<Seq<char>>,
    pub after: Seq<Seq<char>>,
    pub host: Seq<char>,
    pub hostname: Seq<char>,
    pub user: Seq<char>,
    pub identityfile: Seq<char>,
}

/// State of the line-by-line parse: the current mode and the partition
/// built so far.
#[verifier::ext_equal]
pub ghost struct SplitState {
    pub mode: Mode,
    pub block: BlockModel,
}

/// A line that triggers the match: first word `Host`, second word equal to
/// the requested alias (a missing second word counts as the empty alias).
pub open spec fn line_matches_host(line: Seq<char>, host: Seq<char>) -> bool {
    first_token(line) == Some("Host"@) && second_token_or_empty(line) == host
}

/// The parse state before any line has been read.
pub open spec fn split_init(host: Seq<char>) -> SplitState {
    SplitState {
        mode: Mode::Before,
        block: BlockModel {
            before: Seq::empty(),
            after: Seq::empty(),
            host: host,
            hostname: Seq::empty(),
            user: Seq::empty(),
            identityfile: Seq::empty(),
        },
    }
}

/// One step of the parse: how a single line changes the state.
///
/// In `Before`, a line matching `Host <alias>` is consumed and switches to
/// `Matching`; any other line is kept verbatim in `before`.  In `Matching`,
/// the three recognized directives record their value, a blank line switches
/// to `After` and is kept in `after`, and any other line is dropped.  In
/// `After`, every line is kept verbatim in `after`.
pub open spec fn split_step(st: SplitState, line: Seq<char>) -> SplitState {
    match st.mode {
        Mode::Before => {
            if line_matches_host(line, st.block.host) {
                SplitState { mode: Mode::Matching, block: st.block }
            } else {
                SplitState {
                    mode: Mode::Before,
                    block: BlockModel { before: st.block.before.push(line), ..st.block },
                }
            }
        },
        Mode::Matching => {
            match first_token(line) {
                Option::None => SplitState {
                    mode: Mode::After,
                    block: BlockModel { after: st.block.after.push(line), ..st.block },
                },
                Option::Some(t) => {
                    if t == "HostName"@ {
                        SplitState {
                            mode: Mode::Matching,
                            block: BlockModel {
                                hostname: second_token_or_empty(line),
                                ..st.block
                            },
                        }
                    } else if t == "User"@ {
                        SplitState {
                            mode: Mode::Matching,
                            block: BlockModel { user: second_token_or_empty(line), ..st.block },
                        }
                    } else if t == "IdentityFile"@ {
                        SplitState {
                            mode: Mode::Matching,
                            block: BlockModel {
                                identityfile: second_token_or_empty(line),
                                ..st.block
                            },
                        }
                    } else {
                        st
                    }
                },
            }
        },
        Mode::After => SplitState {
            mode: Mode::After,
            block: BlockModel { after: st.block.after.push(line), ..st.block },
        },
    }
}

/// The parse state after running `split_step` over `lines` from `st`.
pub open spec fn run_lines(st: SplitState, lines: Seq<Seq<char>>) -> SplitState
    decreases lines.len(),
{
    if lines.len() == 0 {
        st
    } else {
        split_step(run_lines(st, lines.drop_last()), lines.last())
    }
}

/// The parse state after reading the whole file.
pub open spec fn split_fold(lines: Seq<Seq<char>>, host: Seq<char>) -> SplitState {
    run_lines(split_init(host), lines)
}

/// The invariant every reachable parse state satisfies: the alias is fixed,
/// lines kept in `before` never match it, the recorded field values are
/// single words, `after` starts only at the terminating blank line, and
/// `before` is closed once the mode leaves `Before`.
pub open spec fn state_inv(st: SplitState, host: Seq<char>) -> bool {
    &&& st.block.host == host
    &&& forall|i: int|
        0 <= i < st.block.before.len() ==> !line_matches_host(#[trigger] st.block.before[i], host)
    &&& ws_free(st.block.hostname)
    &&& ws_free(st.block.user)
    &&& ws_free(st.block.identityfile)
    &&& !(st.mode is After) ==> st.block.after.len() == 0
    &&& st.mode is After ==> st.block.after.len() > 0
    &&& st.block.after.len() > 0 ==> first_token(st.block.after[0]) is None
}

pub proof fn lemma_step_inv(st: SplitState, line: Seq<char>, host: Seq<char>)
    requires
        state_inv(st, host),
    ensures
        state_inv(split_step(st, line), host),
{
    lemma_tokens_ws_free(line);
}

pub proof fn lemma_run_inv(st: SplitState, lines: Seq<Seq<char>>, host: Seq<char>)
    requires
        state_inv(st, host),
    ensures
        state_inv(run_lines(st, lines), host),
    decreases lines.len(),
{
    if lines.len() > 0 {
        lemma_run_inv(st, lines.drop_last(), host);
        lemma_step_inv(run_lines(st, lines.drop_last()), lines.last(), host);
    }
}

/// The parse is still in `Before` exactly when no line of the file matches
/// the requested alias.
pub proof fn lemma_mode_before_iff_no_match(lines: Seq<Seq<char>>, host: Seq<char>)
    ensures
        split_fold(lines, host).mode is Before <==> (forall|i: int|
            0 <= i < lines.len() ==> !line_matches_host(#[trigger] lines[i], host)),
    decreases lines.len(),
{
    if lines.len() > 0 {
        lemma_mode_before_iff_no_match(lines.drop_last(), host);
        let st = split_fold(lines.drop_last(), host);
        lemma_run_inv(split_init(host), lines.drop_last(), host);
        assert(forall|i: int|
            0 <= i < lines.len() - 1 ==> lines.drop_last()[i] == #[trigger] lines[i]);
        assert(lines.last() == lines[lines.len() - 1]);
    }
}

/// Why a parse failed: the requested alias matched no `Host` line.
#[derive(Debug)]
pub enum SplitError {
    NotFound,
}

/// A partitioned config file: the lines around the matched block, verbatim,
/// and the block's extracted directive values.
pub struct SplitLines {
    pub before: Vec<String>,
    pub after: Vec<String>,
    pub host: String,
    pub hostname: String,
    pub user: String,
    pub identityfile: String,
}

impl View for SplitLines {
    type V = BlockModel;

    open spec fn view(&self) -> BlockModel {
        BlockModel {
            before: self.before.deep_view(),
            after: self.after.deep_view(),
            host: self.host@,
            hostname: self.hostname@,
            user: self.user@,
            identityfile: self.identityfile@,
        }
    }
}

impl SplitLines {
    /// An empty partition for the given alias: no surrounding lines and
    /// every directive value empty.
    pub fn new(host: &str) -> (r: Self)
        ensures
            r@ == split_init(host@).block,
    {
        let r = SplitLines {
            before: Vec::new(),
            after: Vec::new(),
            host: String::from_str(host),
            hostname: String::new(),
            user: String::new(),
            identityfile: String::new(),
        };
        proof {
            assert(r@.before =~= split_init(host@).block.before);
            assert(r@.after =~= split_init(host@).block.after);
            assert(r@ =~= split_init(host@).block);
        }
        r
    }
}

/// Partition `lines` around the first block whose `Host` line names `host`.
///
/// Succeeds exactly when some line of the file matches `Host <host>`; the
/// result is then the state the spec-level machine reaches on the whole
/// file.  When no line matches, fails with [`SplitError::NotFound`].
pub fn split_lines_on_host(lines: Vec<String>, host: &str) -> (r: Result<SplitLines, SplitError>)
    ensures
        r is Ok <==> !(split_fold(lines.deep_view(), host@).mode is Before),
        r is Ok <==> (exists|i: int|
            0 <= i < lines.deep_view().len() && line_matches_host(
                #[trigger] lines.deep_view()[i],
                host@,
            )),
        r is Ok ==> r->Ok_0@ == split_fold(lines.deep_view(), host@).block,
        r is Ok ==> state_inv(split_fold(lines.deep_view(), host@), host@),
        r is Err ==> r->Err_0 is NotFound,
{
    let ghost all_lines = lines.deep_view();
    let mut result = SplitLines::new(host);
    let mut matching = false;
    let mut done = false;
    let hostname_kw = String::from_str("HostName");
    let user_kw = String::from_str("User");
    let identityfile_kw = String::from_str("IdentityFile");
    let host_kw = String::from_str("Host");
    let host_owned = String::from_str(host);
    let n = lines.len();
    let ghost init = split_init(host@);
    assert(all_lines.subrange(0, 0) =~= Seq::<Seq<char>>::empty());
    let mut idx: usize = 0;
    while idx < n
        invariant
            n == lines.len(),
            all_lines == lines.deep_view(),
            idx <= n,
            hostname_kw@ == "HostName"@,
            user_kw@ == "User"@,
            identityfile_kw@ == "IdentityFile"@,
            host_kw@ == "Host"@,
            host_owned@ == host@,
            ({
                let st = run_lines(init, all_lines.subrange(0, idx as int));
                &&& st.block == result@
                &&& st.block.host == host@
                &&& (st.mode is Before <==> !matching && !done)
                &&& (st.mode is Matching <==> matching && !done)
                &&& (st.mode is After <==> done)
            }),
        decreases n - idx,
    {
        let ghost prev = run_lines(init, all_lines.subrange(0, idx as int));
        let line = lines[idx].clone();
        proof {
            assert(all_lines[idx as int] == lines@[idx as int].deep_view());
            assert(line@ == all_lines[idx as int]);
            assert(all_lines.subrange(0, idx + 1).drop_last() =~= all_lines.subrange(
                0,
                idx as int,
            ));
            assert(all_lines.subrange(0, idx + 1).last() == all_lines[idx as int]);
        }
        let (tok1, tok2) = line_first_two_tokens(line.as_str());
        if !matching && !done {
            match tok1 {
                Option::Some(t) => {
                    proof {
                        assert(first_token(line@) == Some(t@));
                    }
                    if t == host_kw && tok2 == host_owned {
                        matching = true;
                    } else {
                        let ghost before_dv = result.before.deep_view();
                        result.before.push(line);
                        proof {
                            assert(result.before.deep_view() =~= before_dv.push(line@));
                        }
                    }
                },
                Option::None => {
                    let ghost before_dv = result.before.deep_view();
                    result.before.push(line);
                    proof {
                        assert(result.before.deep_view() =~= before_dv.push(line@));
                    }
                },
            }
        } else if matching && !done {
            match tok1 {
                Option::Some(t) => {
                    proof {
                        assert(first_token(line@) == Some(t@));
                    }
                    if t == hostname_kw {
                        result.hostname = tok2;
                    } else if t == user_kw {
                        result.user = tok2;
                    } else if t == identityfile_kw {
                        result.identityfile = tok2;
                    }
                },
                Option::None => {
                    matching = false;
                    done = true;
                    let ghost after_dv = result.after.deep_view();
                    result.after.push(line);
                    proof {
                        assert(result.after.deep_view() =~= after_dv.push(line@));
                    }
                },
            }
        } else {
            let ghost after_dv = result.after.deep_view();
            result.after.push(line);
            proof {
                assert(result.after.deep_view() =~= after_dv.push(line@));
            }
        }
        proof {
            let next = split_step(prev, all_lines[idx as int]);
            assert(run_lines(init, all_lines.subrange(0, idx + 1)) == next);
            assert(next.block =~= result@);
        }
        idx = idx + 1;
    }
    proof {
        assert(all_lines.subrange(0, n as int) =~= all_lines);
        lemma_mode_before_iff_no_match(all_lines, host@);
        lemma_run_inv(init, all_lines, host@);
    }
    if !matching && !done {
        Result::Err(SplitError::NotFound)
    } else {
        Result::Ok(result)
    }
}

} // verus!
