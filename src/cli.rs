use vstd::prelude::*;

verus! {

/// What a command line asks for.
pub enum Invocation {
    /// No arguments: show how to use the program.
    Help,
    /// A pattern alone: highlight standard input.
    Stdin { pattern: String },
    /// A pattern and files: highlight each file in the order given.
    Files { pattern: String, files: Vec<String> },
}

/// Reads the arguments that follow the program name: the first is the
/// pattern, the rest are file paths.
pub fn parse_args(args: &Vec<String>) -> (r: Invocation)
    ensures
        args@.len() == 0 <==> r is Help,
        args@.len() == 1 <==> r is Stdin,
        r matches Invocation::Stdin { pattern } ==> pattern@ == args@[0]@,
        r matches Invocation::Files { pattern, files } ==> {
            &&& pattern@ == args@[0]@
            &&& files@.len() == args@.len() - 1
            &&& forall|i: int| 0 <= i < files@.len() ==> (#[trigger] files@[i])@ == args@[i + 1]@
        },
{
    if args.len() == 0 {
        return Invocation::Help;
    }
    let pattern = args[0].clone();
    if args.len() == 1 {
        return Invocation::Stdin { pattern };
    }
    let mut files: Vec<String> = Vec::new();
    let mut i: usize = 1;
    while i < args.len()
        invariant
            1 <= i <= args@.len(),
            files@.len() == i - 1,
            forall|k: int| 0 <= k < files@.len() ==> (#[trigger] files@[k])@ == args@[k + 1]@,
        decreases args@.len() - i,
    {
        files.push(args[i].clone());
        i = i + 1;
    }
    Invocation::Files { pattern, files }
}

} // verus!
