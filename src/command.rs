//! Command descriptors: a program name and its ordered arguments.
use vstd::prelude::*;
use vstd::string::StringExecFns;

verus! {

/// The mathematical model of a command descriptor.
pub struct CommandView {
    pub program: Seq<char>,
    pub args: Seq<Seq<char>>,
}

/// A program to launch, with the arguments handed to it in order.
pub struct App {
    pub command: String,
    pub args: Vec<String>,
}

/// The arguments joined by single spaces.
pub open spec fn joined(args: Seq<Seq<char>>) -> Seq<char>
    decreases args.len(),
{
    if args.len() == 0 {
        Seq::empty()
    } else if args.len() == 1 {
        args[0]
    } else {
        joined(args.drop_last()) + seq![' '] + args.last()
    }
}

/// The display form of a command: its program, a space, and its joined arguments.
pub open spec fn display_of(c: CommandView) -> Seq<char> {
    c.program + seq![' '] + joined(c.args)
}

impl View for App {
    type V = CommandView;

    open spec fn view(&self) -> CommandView {
        CommandView { program: self.command@, args: self.args.deep_view() }
    }
}

impl App {
    /// A descriptor is well formed when it names a program.
    pub open spec fn wf(&self) -> bool {
        self.command@.len() > 0
    }

    pub fn new(command: String, args: Vec<String>) -> (r: App)
        requires
            command@.len() > 0,
        ensures
            r@.program == command@,
            r@.args == args.deep_view(),
            r.wf(),
    {
        App { command, args }
    }

    /// The human-readable form of the command line, used for logging only.
    pub fn display(&self) -> (r: String)
        ensures
            r@ == display_of(self@),
    {
        let mut r = self.command.clone();
        let space = " ";
        proof {
            reveal_strlit(" ");
        }
        r.append(space);
        assert(space@ =~= seq![' ']);
        let joined_args = join_args(&self.args);
        r.append(joined_args.as_str());
        r
    }
}

/// Joins the arguments with single spaces.
pub fn join_args(args: &Vec<String>) -> (r: String)
    ensures
        r@ == joined(args.deep_view()),
{
    let mut r = String::new();
    let space = " ";
    proof {
        reveal_strlit(" ");
    }
    assert(space@ =~= seq![' ']);
    let mut i: usize = 0;
    while i < args.len()
        invariant
            i <= args.len(),
            space@ == seq![' '],
            r@ == joined(args.deep_view().take(i as int)),
        decreases args.len() - i,
    {
        proof {
            let s = args.deep_view().take(i as int + 1);
            assert(s.drop_last() =~= args.deep_view().take(i as int));
            assert(s.last() == args[i as int]@);
        }
        let ghost prev = r@;
        if i > 0 {
            r.append(space);
        }
        r.append(args[i].as_str());
        proof {
            if i == 0 {
                assert(r@ =~= args[0]@);
            } else {
                assert(r@ =~= prev + seq![' '] + args[i as int]@);
            }
        }
        i = i + 1;
    }
    assert(args.deep_view().take(args.len() as int) =~= args.deep_view());
    r
}

} // verus!
