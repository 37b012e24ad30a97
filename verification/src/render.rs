//! Re-emitting a partitioned config file as an ordered line sequence.
//!
//! The output is: every `before` line verbatim, a synthesized four-line
//! block (`Host`, `HostName`, `User`, `IdentityFile`, the directives under
//! a fixed two-space indent), and every `after` line verbatim.

use vstd::prelude::*;

use crate::split::{BlockModel, SplitLines};
use crate::tokens::{
    first_token, lemma_keyword_value_line, second_token_or_empty, ws_free,
};

verus! {

/// The rendered `Host <alias>` line.
pub open spec fn host_line_of(alias: Seq<char>) -> Seq<char> {
    "Host "@ + alias
}

/// The rendered `  HostName <value>` line.
pub open spec fn hostname_line_of(v: Seq<char>) -> Seq<char> {
    "  HostName "@ + v
}

/// The rendered `  User <value>` line.
pub open spec fn user_line_of(v: Seq<char>) -> Seq<char> {
    "  User "@ + v
}

/// The rendered `  IdentityFile <value>` line.
pub open spec fn identityfile_line_of(v: Seq<char>) -> Seq<char> {
    "  IdentityFile "@ + v
}

/// The four synthesized lines of the rewritten block, in emission order.
pub open spec fn rendered_block(b: BlockModel) -> Seq<Seq<char>> {
    seq![
        host_line_of(b.host),
        hostname_line_of(b.hostname),
        user_line_of(b.user),
        identityfile_line_of(b.identityfile),
    ]
}

/// The whole rendered file: `before`, the synthesized block, `after`.
pub open spec fn render_model(b: BlockModel) -> Seq<Seq<char>> {
    b.before + rendered_block(b) + b.after
}

pub proof fn lemma_host_line_tokens(alias: Seq<char>)
    requires
        ws_free(alias),
    ensures
        first_token(host_line_of(alias)) == Some("Host"@),
        second_token_or_empty(host_line_of(alias)) == alias,
{
    reveal_strlit("Host ");
    reveal_strlit("Host");
    lemma_keyword_value_line("Host "@, alias, 0);
    assert(("Host "@).subrange(0, 4) =~= "Host"@);
}

pub proof fn lemma_hostname_line_tokens(v: Seq<char>)
    requires
        ws_free(v),
    ensures
        first_token(hostname_line_of(v)) == Some("HostName"@),
        second_token_or_empty(hostname_line_of(v)) == v,
{
    reveal_strlit("  HostName ");
    reveal_strlit("HostName");
    lemma_keyword_value_line("  HostName "@, v, 2);
    assert(("  HostName "@).subrange(2, 10) =~= "HostName"@);
}

pub proof fn lemma_user_line_tokens(v: Seq<char>)
    requires
        ws_free(v),
    ensures
        first_token(user_line_of(v)) == Some("User"@),
        second_token_or_empty(user_line_of(v)) == v,
{
    reveal_strlit("  User ");
    reveal_strlit("User");
    lemma_keyword_value_line("  User "@, v, 2);
    assert(("  User "@).subrange(2, 6) =~= "User"@);
}

pub proof fn lemma_identityfile_line_tokens(v: Seq<char>)
    requires
        ws_free(v),
    ensures
        first_token(identityfile_line_of(v)) == Some("IdentityFile"@),
        second_token_or_empty(identityfile_line_of(v)) == v,
{
    reveal_strlit("  IdentityFile ");
    reveal_strlit("IdentityFile");
    lemma_keyword_value_line("  IdentityFile "@, v, 2);
    assert(("  IdentityFile "@).subrange(2, 14) =~= "IdentityFile"@);
}

fn push_cloned_lines(out: &mut Vec<String>, src: &Vec<String>)
    ensures
        final(out).deep_view() == old(out).deep_view() + src.deep_view(),
{
    let ghost base = out.deep_view();
    let mut i: usize = 0;
    assert(base + src.deep_view().subrange(0, 0) =~= base);
    while i < src.len()
        invariant
            i <= src.len(),
            out.deep_view() == base + src.deep_view().subrange(0, i as int),
        decreases src.len() - i,
    {
        let ghost dv = out.deep_view();
        let line = src[i].clone();
        out.push(line);
        proof {
            assert(out.deep_view() =~= dv.push(src.deep_view()[i as int]));
            assert(dv.push(src.deep_view()[i as int]) =~= base + src.deep_view().subrange(
                0,
                i + 1,
            ));
        }
        i = i + 1;
    }
    proof {
        assert(src.deep_view().subrange(0, src.len() as int) =~= src.deep_view());
    }
}

fn push_line(out: &mut Vec<String>, line: String)
    ensures
        final(out).deep_view() == old(out).deep_view().push(line@),
{
    let ghost dv = out.deep_view();
    out.push(line);
    proof {
        assert(out.deep_view() =~= dv.push(out@[out@.len() - 1]@));
    }
}

fn directive_line(prefix_kw: &str, value: &str) -> (r: String)
    ensures
        r@ == prefix_kw@ + value@,
{
    let mut line = String::from_str(prefix_kw);
    line.append(value);
    line
}

/// Emit the partitioned file as lines: `before` verbatim, the four-line
/// block with the current field values, then `after` verbatim.
pub fn render(parsed: &SplitLines) -> (out: Vec<String>)
    ensures
        out.deep_view() == render_model(parsed@),
{
    let mut out: Vec<String> = Vec::new();
    proof {
        assert(out.deep_view() =~= Seq::<Seq<char>>::empty());
        assert(Seq::<Seq<char>>::empty() + parsed@.before =~= parsed@.before);
    }
    push_cloned_lines(&mut out, &parsed.before);
    push_line(&mut out, directive_line("Host ", parsed.host.as_str()));
    push_line(&mut out, directive_line("  HostName ", parsed.hostname.as_str()));
    push_line(&mut out, directive_line("  User ", parsed.user.as_str()));
    push_line(&mut out, directive_line("  IdentityFile ", parsed.identityfile.as_str()));
    proof {
        assert(out.deep_view() =~= parsed@.before + rendered_block(parsed@));
    }
    push_cloned_lines(&mut out, &parsed.after);
    proof {
        assert(out.deep_view() =~= render_model(parsed@));
    }
    out
}

} // verus!
