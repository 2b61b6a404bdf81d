//! What the arguments of the shell ask for.

use vstd::prelude::*;

use crate::builtins::texts_from;
use crate::text::{lemma_texts_empty, lemma_texts_push, same_text, texts};

verus! {

broadcast use {lemma_texts_push, lemma_texts_empty};

/// How the shell was started.
#[derive(Debug, PartialEq, Eq)]
pub enum Invocation {
    /// `-c` with a command, and perhaps a name for `$0`.
    Command { source: String, arg0: Option<String>, params: Vec<String> },
    /// `-c` without a command.
    MissingCommand,
    /// With a script, whose path is `$0`.
    Script { path: String, params: Vec<String> },
    /// Without arguments.
    Interactive,
}

/// View of [`Invocation`].
pub ghost enum InvocationV {
    Command { source: Seq<char>, arg0: Option<Seq<char>>, params: Seq<Seq<char>> },
    MissingCommand,
    Script { path: Seq<char>, params: Seq<Seq<char>> },
    Interactive,
}

impl View for Invocation {
    type V = InvocationV;

    open spec fn view(&self) -> InvocationV {
        match self {
            Invocation::Command { source, arg0, params } => InvocationV::Command {
                source: source@,
                arg0: match arg0 {
                    Some(name) => Some(name@),
                    None => None,
                },
                params: texts(params@),
            },
            Invocation::MissingCommand => InvocationV::MissingCommand,
            Invocation::Script { path, params } => InvocationV::Script {
                path: path@,
                params: texts(params@),
            },
            Invocation::Interactive => InvocationV::Interactive,
        }
    }
}

/// What the arguments behind the name of the program ask for.
pub open spec fn invoked(args: Seq<Seq<char>>) -> InvocationV {
    if args.len() == 0 {
        InvocationV::Interactive
    } else if args[0] == "-c"@ {
        if args.len() == 1 {
            InvocationV::MissingCommand
        } else {
            InvocationV::Command {
                source: args[1],
                arg0: if args.len() > 2 {
                    Some(args[2])
                } else {
                    None
                },
                params: if args.len() > 3 {
                    args.skip(3)
                } else {
                    Seq::empty()
                },
            }
        }
    } else {
        InvocationV::Script { path: args[0], params: args.skip(1) }
    }
}

/// Reads the arguments behind the name of the program.
#[must_use]
pub fn read_arguments(args: &Vec<String>) -> (r: Invocation)
    ensures
        r@ == invoked(texts(args@)),
{
    assert(forall|i: int| 0 <= i < args@.len() ==> texts(args@)[i] == (#[trigger] args@[i])@);
    if args.len() == 0 {
        return Invocation::Interactive;
    }
    if same_text(args[0].as_str(), "-c") {
        if args.len() == 1 {
            return Invocation::MissingCommand;
        }
        let arg0 = if args.len() > 2 {
            Some(args[2].clone())
        } else {
            None
        };
        let params = if args.len() > 3 {
            texts_from(args, 3)
        } else {
            Vec::new()
        };
        return Invocation::Command { source: args[1].clone(), arg0, params };
    }
    Invocation::Script { path: args[0].clone(), params: texts_from(args, 1) }
}

/// A status as the system takes it: its last eight bits.
#[must_use]
pub fn exit_byte(status: i32) -> (r: u8)
    ensures
        r == status % 256,
{
    match status.checked_rem_euclid(256) {
        Some(n) => n as u8,
        None => 0,
    }
}

/// `-c` is followed by a command, and that by a name for the shell and by its
/// parameters. Anything else is the path of a script, followed by its
/// parameters.
pub proof fn law_arguments_are_taken_in_their_order(
    first: Seq<char>,
    arg0: Seq<char>,
    params: Seq<Seq<char>>,
)
    ensures
        invoked(Seq::empty()) is Interactive,
        invoked(seq!["-c"@]) is MissingCommand,
        invoked(seq!["-c"@, first]) == (InvocationV::Command {
            source: first,
            arg0: None,
            params: Seq::empty(),
        }),
        invoked(seq!["-c"@, first, arg0] + params) == (InvocationV::Command {
            source: first,
            arg0: Some(arg0),
            params,
        }),
        first != "-c"@ ==> invoked(seq![first] + params) == (InvocationV::Script {
            path: first,
            params,
        }),
{
    let s = seq!["-c"@, first, arg0] + params;
    let t = seq![first] + params;
    assert(seq!["-c"@][0] == "-c"@);
    assert(seq!["-c"@, first][0] == "-c"@ && seq!["-c"@, first][1] == first);
    assert(s[0] == "-c"@ && s[1] == first && s[2] == arg0);
    assert(s.skip(3) =~= params);
    assert(params.len() == 0 ==> params =~= Seq::<Seq<char>>::empty());
    assert(t[0] == first);
    assert(t.skip(1) =~= params);
}

} // verus!
