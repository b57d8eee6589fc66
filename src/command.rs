use vstd::prelude::*;
use vstd::string::StringExecFns;
use crate::matrix::{names, same_names, same_set, Name, Names};

verus! {

/// Which front-end runs the build tool for each combination.
#[derive(Clone, Copy, Debug, PartialEq, Eq, Structural)]
pub enum CommandTarget {
    /// `cargo` itself.
    Cargo,
    /// `cross`, for cross-compilation.
    Cross,
}

/// The build action run for each combination.
#[derive(Clone, Copy, Debug, PartialEq, Eq, Structural)]
pub enum CargoCommand {
    Build,
    Check,
    Test,
    Bench,
}

/// The program that a front-end runs.
pub open spec fn program_name(t: CommandTarget) -> Name {
    match t {
        CommandTarget::Cargo => "cargo"@,
        CommandTarget::Cross => "cross"@,
    }
}

/// The subcommand word of an action.
pub open spec fn command_word(c: CargoCommand) -> Name {
    match c {
        CargoCommand::Build => "build"@,
        CargoCommand::Check => "check"@,
        CargoCommand::Test => "test"@,
        CargoCommand::Bench => "bench"@,
    }
}

/// The names of `c` separated by commas.
pub open spec fn join_names(c: Names) -> Name
    decreases c.len(),
{
    if c.len() == 0 {
        Seq::empty()
    } else if c.len() == 1 {
        c[0]
    } else {
        join_names(c.drop_last()) + ","@ + c.last()
    }
}

/// The feature flags of a combination. The combination that names exactly
/// the default features is the default run and gets no flags; every other
/// one turns the defaults off and, unless it is empty, lists its features.
pub open spec fn feature_flags(c: Names, defaults: Names) -> Seq<Name> {
    if same_set(c, defaults) {
        Seq::empty()
    } else if c.len() == 0 {
        seq!["--no-default-features"@]
    } else {
        seq!["--no-default-features"@, "--features"@, join_names(c)]
    }
}

/// The arguments for one combination: the action, the feature flags, then
/// the extra arguments as they were given.
pub open spec fn invocation_args(cmd: CargoCommand, c: Names, defaults: Names, extra: Names) -> Seq<
    Name,
> {
    seq![command_word(cmd)] + feature_flags(c, defaults) + extra
}

/// A program and its arguments.
pub struct Invocation {
    pub program: String,
    pub args: Vec<String>,
}

/// The text of a command line: the program, then each argument after a space.
pub open spec fn line_text(program: Name, args: Names) -> Name
    decreases args.len(),
{
    if args.len() == 0 {
        program
    } else {
        line_text(program, args.drop_last()) + " "@ + args.last()
    }
}

/// The names of `c` separated by commas.
pub fn join_features(c: &Vec<String>) -> (r: String)
    ensures
        r@ == join_names(names(c@)),
{
    let ghost n = names(c@);
    let mut r = String::new();
    for i in 0..c.len()
        invariant
            n == names(c@),
            r@ == join_names(n.take(i as int)),
    {
        assert(n.take(i + 1).drop_last() =~= n.take(i as int));
        if i > 0 {
            r.append(",");
        } else {
            assert(join_names(n.take(0)) == Seq::<char>::empty());
            assert(r@ =~= Seq::<char>::empty());
        }
        r.append(c[i].as_str());
        assert(n.take(i + 1).last() == c@[i as int]@);
        if i == 0 {
            assert(r@ =~= c@[0]@);
        }
    }
    assert(n.take(c@.len() as int) =~= n);
    r
}

/// The invocation that tests the combination `features` of a crate whose
/// default features are `defaults`.
pub fn invocation(
    target: CommandTarget,
    command: CargoCommand,
    features: &Vec<String>,
    defaults: &Vec<String>,
    extra: &Vec<String>,
) -> (r: Invocation)
    ensures
        r.program@ == program_name(target),
        names(r.args@) == invocation_args(command, names(features@), names(defaults@), names(extra@)),
{
    let program = match target {
        CommandTarget::Cargo => "cargo".to_owned(),
        CommandTarget::Cross => "cross".to_owned(),
    };
    let word = match command {
        CargoCommand::Build => "build".to_owned(),
        CargoCommand::Check => "check".to_owned(),
        CargoCommand::Test => "test".to_owned(),
        CargoCommand::Bench => "bench".to_owned(),
    };
    let mut args: Vec<String> = Vec::new();
    args.push(word);
    if !same_names(features, defaults) {
        args.push("--no-default-features".to_owned());
        if features.len() > 0 {
            args.push("--features".to_owned());
            args.push(join_features(features));
        }
    }
    let ghost head = names(args@);
    assert(head == seq![command_word(command)] + feature_flags(
        names(features@),
        names(defaults@),
    ));
    for i in 0..extra.len()
        invariant
            names(args@) == head + names(extra@).take(i as int),
    {
        let ghost before = args@;
        let s = extra[i].clone();
        args.push(s);
        assert(names(args@) =~= names(before).push(s@));
        assert(names(args@) =~= head + names(extra@).take(i + 1));
    }
    assert(names(extra@).take(extra@.len() as int) =~= names(extra@));
    Invocation { program, args }
}

impl Invocation {
    /// The command line as text, to show or to reproduce by hand.
    pub fn command_line(&self) -> (r: String)
        ensures
            r@ == line_text(self.program@, names(self.args@)),
    {
        let ghost n = names(self.args@);
        let mut r = self.program.clone();
        assert(n.take(0) =~= Seq::<Name>::empty());
        for i in 0..self.args.len()
            invariant
                n == names(self.args@),
                r@ == line_text(self.program@, n.take(i as int)),
        {
            assert(n.take(i + 1).drop_last() =~= n.take(i as int));
            r.append(" ");
            r.append(self.args[i].as_str());
        }
        assert(n.take(self.args@.len() as int) =~= n);
        r
    }
}

} // verus!
