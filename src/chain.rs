//! Response chaining: a second command takes the tokens of the first
//! command's captured output as further arguments.
use vstd::prelude::*;
use vstd::string::StrSliceExecFns;
use crate::command::{App, CommandView};
use crate::output::{decode_lossy, lossy_text, split_tokens, tokens};

verus! {

/// The command that the captured text `out` makes of `second`: none when the
/// text is empty; else `second`'s program with `second`'s arguments followed by
/// the tokens of the text. Text that holds only line feeds still gives a
/// command, with no argument added: any output at all triggers the second
/// command.
pub open spec fn chained(second: CommandView, out: Seq<char>) -> Option<CommandView> {
    if out.len() == 0 {
        None
    } else {
        Some(CommandView { program: second.program, args: second.args + tokens(out) })
    }
}

/// The model of an optional command.
pub open spec fn option_view(r: Option<App>) -> Option<CommandView> {
    match r {
        Some(a) => Some(a@),
        None => None,
    }
}

/// Copies the arguments of a command, one by one.
fn copy_args(args: &Vec<String>) -> (r: Vec<String>)
    ensures
        r.deep_view() == args.deep_view(),
{
    let mut r: Vec<String> = Vec::new();
    let mut i: usize = 0;
    while i < args.len()
        invariant
            i <= args.len(),
            r.len() == i,
            forall|j: int| 0 <= j < i ==> r@[j]@ == args@[j]@,
        decreases args.len() - i,
    {
        let a = args[i].clone();
        r.push(a);
        i = i + 1;
    }
    assert(r.deep_view() =~= args.deep_view());
    r
}

/// Builds the command that the decoded output of a first command makes of
/// `second`.
pub fn chained_command(second: &App, output: &str) -> (r: Option<App>)
    ensures
        option_view(r) == chained(second@, output@),
        second.wf() && r is Some ==> r->0.wf(),
{
    if output.unicode_len() == 0 {
        return None;
    }
    let mut args = copy_args(&second.args);
    let mut extra = split_tokens(output);
    let ghost a0 = args@;
    let ghost e0 = extra@;
    args.append(&mut extra);
    proof {
        assert(args@ == a0 + e0);
        assert(args.deep_view() =~= second.args.deep_view() + tokens(output@));
    }
    Some(App { command: second.command.clone(), args })
}

/// Builds the command that the raw captured output of a first command makes of
/// `second`. Decoding never fails: invalid byte sequences are replaced.
pub fn chained_command_from_output(second: &App, stdout: &[u8]) -> (r: Option<App>)
    ensures
        option_view(r) == chained(second@, lossy_text(stdout@)),
        stdout@.len() == 0 <==> r is None,
        second.wf() && r is Some ==> r->0.wf(),
{
    let text = decode_lossy(stdout);
    chained_command(second, text.as_str())
}

} // verus!
