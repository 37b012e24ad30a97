//! The library's global guarantees, proved over the spec-level parse
//! machine: re-splitting a rendered file recovers the same partition, the
//! update flow is idempotent, and only the first matching `Host` line is
//! ever consumed.

use vstd::prelude::*;

use crate::render::{
    host_line_of, hostname_line_of, identityfile_line_of, lemma_host_line_tokens,
    lemma_hostname_line_tokens, lemma_identityfile_line_tokens, lemma_user_line_tokens,
    render_model, rendered_block, user_line_of,
};
use crate::split::{
    line_matches_host, run_lines, split_fold, split_init, split_step, state_inv, BlockModel,
    Mode, SplitState,
};
use crate::split::lemma_run_inv;
use crate::tokens::{first_token, ws_free};

verus! {

/// The shape `split` gives every successful partition: the surrounding
/// lines and field values are such that rendering and re-splitting can
/// recover them.  `before` holds no line matching the alias, every field
/// value is a single whitespace-free word, and `after` is either empty or
/// opens with the blank line that terminated the block.
pub open spec fn wf_model(b: BlockModel) -> bool {
    &&& ws_free(b.host)
    &&& ws_free(b.hostname)
    &&& ws_free(b.user)
    &&& ws_free(b.identityfile)
    &&& forall|i: int|
        0 <= i < b.before.len() ==> !line_matches_host(#[trigger] b.before[i], b.host)
    &&& b.after.len() > 0 ==> first_token(b.after[0]) is None
}

/// For a whitespace-free alias, whatever lines are parsed, the partition
/// the machine reaches is well formed in the sense of [`wf_model`].
pub proof fn lemma_split_result_wf(lines: Seq<Seq<char>>, host: Seq<char>)
    requires
        ws_free(host),
    ensures
        wf_model(split_fold(lines, host).block),
        split_fold(lines, host).block.host == host,
{
    lemma_run_inv(split_init(host), lines, host);
    assert(state_inv(split_fold(lines, host), host));
}

/// Running the machine over a concatenation is running it over each part
/// in turn.
pub proof fn lemma_run_append(st: SplitState, xs: Seq<Seq<char>>, ys: Seq<Seq<char>>)
    ensures
        run_lines(st, xs + ys) == run_lines(run_lines(st, xs), ys),
    decreases ys.len(),
{
    if ys.len() == 0 {
        assert(xs + ys =~= xs);
    } else {
        lemma_run_append(st, xs, ys.drop_last());
        assert((xs + ys).drop_last() =~= xs + ys.drop_last());
        assert((xs + ys).last() == ys.last());
    }
}

proof fn lemma_run_one(st: SplitState, l: Seq<char>)
    ensures
        run_lines(st, seq![l]) == split_step(st, l),
{
    assert(seq![l].drop_last() =~= Seq::<Seq<char>>::empty());
    assert(run_lines(st, Seq::<Seq<char>>::empty()) == st);
    assert(seq![l].last() == l);
}

/// While no line matches, the machine stays in `Before` and keeps every
/// line verbatim, in order.
pub proof fn lemma_run_before_nonmatching(st: SplitState, ls: Seq<Seq<char>>)
    requires
        st.mode is Before,
        forall|i: int| 0 <= i < ls.len() ==> !line_matches_host(#[trigger] ls[i], st.block.host),
    ensures
        run_lines(st, ls).mode is Before,
        run_lines(st, ls).block == (BlockModel { before: st.block.before + ls, ..st.block }),
    decreases ls.len(),
{
    if ls.len() == 0 {
        assert(run_lines(st, ls).block =~= (BlockModel {
            before: st.block.before + ls,
            ..st.block
        }));
    } else {
        assert(forall|i: int|
            0 <= i < ls.len() - 1 ==> ls.drop_last()[i] == #[trigger] ls[i]);
        lemma_run_before_nonmatching(st, ls.drop_last());
        assert(ls.last() == ls[ls.len() - 1]);
        assert(run_lines(st, ls).block =~= (BlockModel {
            before: st.block.before + ls,
            ..st.block
        }));
    }
}

/// Once the block is closed, every remaining line — a further `Host` line
/// with the same alias included — is appended verbatim to `after`, and
/// nothing else changes.
pub proof fn lemma_after_passthrough(st: SplitState, ls: Seq<Seq<char>>)
    requires
        st.mode is After,
    ensures
        run_lines(st, ls).mode is After,
        run_lines(st, ls).block == (BlockModel { after: st.block.after + ls, ..st.block }),
    decreases ls.len(),
{
    if ls.len() == 0 {
        assert(run_lines(st, ls).block =~= (BlockModel {
            after: st.block.after + ls,
            ..st.block
        }));
    } else {
        lemma_after_passthrough(st, ls.drop_last());
        assert(run_lines(st, ls).block =~= (BlockModel {
            after: st.block.after + ls,
            ..st.block
        }));
    }
}

/// Once the machine has left `Before`, no later line can re-match: the
/// `before` partition is frozen at the first match.
pub proof fn lemma_no_rematch_past_first(st: SplitState, ls: Seq<Seq<char>>)
    requires
        !(st.mode is Before),
    ensures
        !(run_lines(st, ls).mode is Before),
        run_lines(st, ls).block.before == st.block.before,
    decreases ls.len(),
{
    if ls.len() > 0 {
        lemma_no_rematch_past_first(st, ls.drop_last());
    }
}

/// Inside the matched block, non-blank lines only record directive values:
/// the mode, the surrounding partitions and the alias are untouched.
pub proof fn lemma_run_matching_nonblank(st: SplitState, ls: Seq<Seq<char>>)
    requires
        st.mode is Matching,
        forall|i: int| 0 <= i < ls.len() ==> first_token(#[trigger] ls[i]) is Some,
    ensures
        run_lines(st, ls).mode is Matching,
        run_lines(st, ls).block.before == st.block.before,
        run_lines(st, ls).block.after == st.block.after,
        run_lines(st, ls).block.host == st.block.host,
    decreases ls.len(),
{
    if ls.len() > 0 {
        assert(forall|i: int|
            0 <= i < ls.len() - 1 ==> ls.drop_last()[i] == #[trigger] ls[i]);
        lemma_run_matching_nonblank(st, ls.drop_last());
        assert(ls.last() == ls[ls.len() - 1]);
    }
}

/// Splitting, then rendering with no field mutation, reproduces the file
/// except for the matched block itself, which comes back in its normalized
/// four-line form: every line before the matched `Host` line and every line
/// from the terminating blank on is emitted verbatim.
///
/// Any file containing a match decomposes as required here: `pre` is
/// everything before the first matching line `matchline`, `body` the
/// non-blank lines under it, and `tail` the rest, opening with the block's
/// terminating blank line if the block does not end the file.
pub proof fn lemma_split_then_render(
    pre: Seq<Seq<char>>,
    matchline: Seq<char>,
    body: Seq<Seq<char>>,
    tail: Seq<Seq<char>>,
    host: Seq<char>,
)
    requires
        forall|i: int| 0 <= i < pre.len() ==> !line_matches_host(#[trigger] pre[i], host),
        line_matches_host(matchline, host),
        forall|i: int| 0 <= i < body.len() ==> first_token(#[trigger] body[i]) is Some,
        tail.len() > 0 ==> first_token(tail[0]) is None,
    ensures
        ({
            let st = split_fold(pre + seq![matchline] + body + tail, host);
            &&& !(st.mode is Before)
            &&& st.block.before == pre
            &&& st.block.after == tail
            &&& render_model(st.block) == pre + rendered_block(st.block) + tail
        }),
{
    let lines = pre + seq![matchline] + body + tail;
    assert(lines =~= (pre + seq![matchline]) + (body + tail));
    lemma_first_match_wins(pre, matchline, body + tail, host);
    let entered = SplitState {
        mode: Mode::Matching,
        block: BlockModel { before: pre, ..split_init(host).block },
    };
    let st = split_fold(lines, host);
    assert(split_fold((pre + seq![matchline]) + (body + tail), host) == st);
    lemma_run_append(entered, body, tail);
    lemma_run_matching_nonblank(entered, body);
    let st2 = run_lines(entered, body);
    if tail.len() == 0 {
        assert(st.block.after =~= tail);
    } else {
        let a0 = tail[0];
        let rest = tail.subrange(1, tail.len() as int);
        assert(tail =~= seq![a0] + rest);
        lemma_run_append(st2, seq![a0], rest);
        lemma_run_one(st2, a0);
        let st3 = split_step(st2, a0);
        assert(st3.mode is After);
        assert(st3.block.after =~= seq![a0]);
        lemma_after_passthrough(st3, rest);
        assert(run_lines(st3, rest).block.after =~= tail);
        assert(run_lines(st2, tail) == run_lines(st3, rest));
    }
}

/// Splitting what `render` emitted, with the same alias, succeeds and
/// recovers exactly the partition that was rendered: the round trip loses
/// nothing once the block is in its normalized four-line form.
pub proof fn lemma_split_render_roundtrip(b: BlockModel)
    requires
        wf_model(b),
    ensures
        !(split_fold(render_model(b), b.host).mode is Before),
        split_fold(render_model(b), b.host).block == b,
{
    reveal_strlit("HostName");
    reveal_strlit("User");
    reveal_strlit("IdentityFile");
    let init = split_init(b.host);
    let rb = rendered_block(b);
    let l0 = host_line_of(b.host);
    let l1 = hostname_line_of(b.hostname);
    let l2 = user_line_of(b.user);
    let l3 = identityfile_line_of(b.identityfile);
    lemma_host_line_tokens(b.host);
    lemma_hostname_line_tokens(b.hostname);
    lemma_user_line_tokens(b.user);
    lemma_identityfile_line_tokens(b.identityfile);
    lemma_run_append(init, b.before, rb);
    lemma_run_append(init, b.before + rb, b.after);
    lemma_run_before_nonmatching(init, b.before);
    let st1 = run_lines(init, b.before);
    assert(Seq::<Seq<char>>::empty() + b.before =~= b.before);
    assert(st1.block.host == b.host);
    let t1 = split_step(st1, l0);
    let t2 = split_step(t1, l1);
    let t3 = split_step(t2, l2);
    let t4 = split_step(t3, l3);
    assert(t1.mode is Matching);
    assert("User"@.len() == 4);
    assert("HostName"@.len() == 8);
    assert("User"@ != "HostName"@);
    assert("IdentityFile"@ != "HostName"@);
    assert("IdentityFile"@ != "User"@);
    assert(t4.mode is Matching);
    assert(t4.block.before == b.before);
    assert(t4.block.after =~= Seq::<Seq<char>>::empty());
    assert(t4.block.hostname == b.hostname);
    assert(t4.block.user == b.user);
    assert(t4.block.identityfile == b.identityfile);
    let s01 = seq![l0];
    let s02 = seq![l0, l1];
    let s03 = seq![l0, l1, l2];
    lemma_run_one(st1, l0);
    assert(s02.drop_last() =~= s01);
    assert(s02.last() == l1);
    assert(run_lines(st1, s02) == t2);
    assert(s03.drop_last() =~= s02);
    assert(s03.last() == l2);
    assert(run_lines(st1, s03) == t3);
    assert(rb.drop_last() =~= s03);
    assert(rb.last() == l3);
    assert(run_lines(st1, rb) == t4);
    assert(run_lines(init, b.before + rb) == t4);
    if b.after.len() == 0 {
        assert(run_lines(t4, b.after) == t4);
        assert(t4.block =~= b);
    } else {
        let a0 = b.after[0];
        let rest = b.after.subrange(1, b.after.len() as int);
        assert(b.after =~= seq![a0] + rest);
        lemma_run_append(t4, seq![a0], rest);
        lemma_run_one(t4, a0);
        let t5 = split_step(t4, a0);
        assert(first_token(a0) is None);
        assert(t5.mode is After);
        lemma_after_passthrough(t5, rest);
        let fin = run_lines(t5, rest);
        assert(fin.block.after =~= b.after);
        assert(fin.block =~= b);
        assert(run_lines(t4, b.after) == fin);
    }
}

/// Idempotence of the update flow: after the hostname has been replaced
/// and the file rendered, splitting the rendered file again finds the new
/// hostname already in place — a second run with the same value compares
/// equal, reports no change, and leaves the file untouched.
pub proof fn lemma_update_flow_idempotent(b: BlockModel, new_hostname: Seq<char>)
    requires
        wf_model(b),
        ws_free(new_hostname),
    ensures
        ({
            let updated = BlockModel { hostname: new_hostname, ..b };
            let st = split_fold(render_model(updated), b.host);
            &&& !(st.mode is Before)
            &&& st.block == updated
            &&& st.block.hostname == new_hostname
        }),
{
    let updated = BlockModel { hostname: new_hostname, ..b };
    assert(wf_model(updated));
    lemma_split_render_roundtrip(updated);
    assert(updated.host == b.host);
}

/// Only the first matching `Host` line is consumed: with every earlier
/// line failing the match, the machine enters the block exactly there,
/// `before` is exactly the preceding lines, and the remaining lines are
/// parsed from the `Matching` state — a later line with the same alias is
/// never reconsidered as a match target.
pub proof fn lemma_first_match_wins(
    pre: Seq<Seq<char>>,
    matchline: Seq<char>,
    rest: Seq<Seq<char>>,
    host: Seq<char>,
)
    requires
        forall|i: int| 0 <= i < pre.len() ==> !line_matches_host(#[trigger] pre[i], host),
        line_matches_host(matchline, host),
    ensures
        ({
            let st = split_fold(pre + seq![matchline] + rest, host);
            let entered = SplitState {
                mode: Mode::Matching,
                block: BlockModel { before: pre, ..split_init(host).block },
            };
            &&& st == run_lines(entered, rest)
            &&& !(st.mode is Before)
            &&& st.block.before == pre
        }),
{
    let init = split_init(host);
    lemma_run_append(init, pre, seq![matchline]);
    lemma_run_append(init, pre + seq![matchline], rest);
    lemma_run_before_nonmatching(init, pre);
    let st1 = run_lines(init, pre);
    assert(Seq::<Seq<char>>::empty() + pre =~= pre);
    lemma_run_one(st1, matchline);
    let entered = SplitState {
        mode: Mode::Matching,
        block: BlockModel { before: pre, ..init.block },
    };
    assert(split_step(st1, matchline) =~= entered);
    lemma_no_rematch_past_first(entered, rest);
}

} // verus!
