//! The command line: verbs and their flags. All arguments are named; there are no
//! positional ones.

use vstd::prelude::*;
use vstd::string::*;

use crate::error::{CarapaceError, CarapaceErrorModel};
use crate::text::{debug_text, quoted, same, texts};

verus! {

/// A flag that takes a value, in its two forms.
#[derive(Debug, Clone, Copy)]
pub struct Flag {
    pub short: &'static str,
    pub long: &'static str,
}

impl Flag {
    /// `arg` is this flag.
    pub open spec fn is(self, arg: Seq<char>) -> bool {
        arg == self.short@ || arg == self.long@
    }
}

/// Which of `flags` the argument is: the first of them that matches.
pub open spec fn flag_index(flags: Seq<Flag>, arg: Seq<char>) -> Option<int>
    decreases flags.len(),
{
    if flags.len() == 0 {
        None
    } else {
        match flag_index(flags.drop_last(), arg) {
            Some(k) => Some(k),
            None => if flags.last().is(arg) {
                Some(flags.len() - 1)
            } else {
                None
            },
        }
    }
}

/// What the arguments of a verb say.
pub enum Scan {
    /// The value of each flag, in the order of the flags.
    Values(Seq<Option<Seq<char>>>),
    /// Help was asked for.
    Help,
    /// The arguments are wrong, as the text says.
    Wrong(Seq<char>),
}

/// What `args` say, where the flags have `values` so far. A flag that is given again
/// takes the new value. What comes after a request for help, or after a mistake, is not
/// looked at.
pub open spec fn scan(
    verb: Seq<char>,
    flags: Seq<Flag>,
    args: Seq<Seq<char>>,
    values: Seq<Option<Seq<char>>>,
) -> Scan
    decreases args.len(),
{
    if args.len() == 0 {
        Scan::Values(values)
    } else {
        match flag_index(flags, args[0]) {
            Some(k) => if args.len() == 1 {
                Scan::Wrong(args[0] + " requires a value"@)
            } else {
                scan(verb, flags, args.skip(2), values.update(k, Some(args[1])))
            },
            None => if args[0] == "-h"@ || args[0] == "--help"@ {
                Scan::Help
            } else {
                Scan::Wrong(verb + ": unexpected argument "@ + debug_text(args[0]))
            },
        }
    }
}

/// No flag has a value.
pub open spec fn no_values(flags: Seq<Flag>) -> Seq<Option<Seq<char>>> {
    flags.map_values(|f: Flag| None)
}

/// The flags of `attach`: the name, then the root.
pub open spec fn attach_flags() -> Seq<Flag> {
    seq![Flag { short: "-n", long: "--name" }, Flag { short: "-r", long: "--root" }]
}

/// The flags of `detach`: the name.
pub open spec fn detach_flags() -> Seq<Flag> {
    seq![Flag { short: "-n", long: "--name" }]
}

/// The flags of `import`: the image, the output directory, the tag.
pub open spec fn import_flags() -> Seq<Flag> {
    seq![
        Flag { short: "-i", long: "--image" },
        Flag { short: "-o", long: "--out" },
        Flag { short: "-t", long: "--tag" },
    ]
}

/// What the arguments of a verb come to, where they are not wrong.
#[derive(Debug, PartialEq, Eq)]
pub enum Parsed<T> {
    /// Help was asked for: print it, and leave with success.
    Help,
    Args(T),
}

/// What the values of the flags hold.
pub open spec fn value_texts(values: Seq<Option<String>>) -> Seq<Option<Seq<char>>> {
    values.map_values(
        |v: Option<String>|
            match v {
                Some(s) => Some(s@),
                None => None,
            },
    )
}

/// `r` is an error of usage, with the given text.
pub open spec fn is_usage<T>(r: Result<T, CarapaceError>, text: Seq<char>) -> bool {
    r is Err && r->Err_0@ == CarapaceErrorModel::Usage(text)
}

/// The value that follows `flag`; it is an error that there is none.
pub fn value_for(flag: &str, value: Option<String>) -> (r: Result<String, CarapaceError>)
    ensures
        match value {
            Some(v) => r == Ok::<String, CarapaceError>(v),
            None => is_usage(r, flag@ + " requires a value"@),
        },
{
    match value {
        Some(v) => Ok(v),
        None => {
            let mut text = flag.to_string();
            text.append(" requires a value");
            Err(CarapaceError::Usage(text))
        },
    }
}

/// Which of `flags` the argument is.
fn find_flag(flags: &Vec<Flag>, arg: &str) -> (r: Option<usize>)
    ensures
        match flag_index(flags@, arg@) {
            Some(k) => r is Some && r->0 == k && k < flags@.len(),
            None => r is None,
        },
{
    let mut i: usize = 0;
    while i < flags.len()
        invariant
            i <= flags.len(),
            flag_index(flags@.take(i as int), arg@) is None,
        decreases flags.len() - i,
    {
        assert(flags@.take(i + 1).drop_last() =~= flags@.take(i as int));
        if same(arg, flags[i].short) || same(arg, flags[i].long) {
            proof {
                lemma_flag_stays(flags@, arg@, i + 1);
            }
            return Some(i);
        }
        i += 1;
    }
    assert(flags@.take(i as int) =~= flags@);
    None
}

/// A flag that matches among the first ones is the one that matches among all.
proof fn lemma_flag_stays(flags: Seq<Flag>, arg: Seq<char>, n: int)
    requires
        0 <= n <= flags.len(),
        flag_index(flags.take(n), arg) is Some,
    ensures
        flag_index(flags, arg) == flag_index(flags.take(n), arg),
    decreases flags.len(),
{
    if n == flags.len() {
        assert(flags.take(n) =~= flags);
    } else {
        assert(flags.drop_last().take(n) =~= flags.take(n));
        lemma_flag_stays(flags.drop_last(), arg, n);
    }
}

/// Reads the arguments of a verb.
fn read_flags(verb: &str, flags: &Vec<Flag>, args: &[String]) -> (r: Result<
    Parsed<Vec<Option<String>>>,
    CarapaceError,
>)
    ensures
        match scan(verb@, flags@, texts(args@), no_values(flags@)) {
            Scan::Values(values) => r is Ok && r->Ok_0 is Args && value_texts(r->Ok_0->Args_0@)
                == values && values.len() == flags@.len(),
            Scan::Help => r is Ok && r->Ok_0 is Help,
            Scan::Wrong(text) => is_usage(r, text),
        },
{
    let mut values: Vec<Option<String>> = Vec::new();
    let mut j: usize = 0;
    while j < flags.len()
        invariant
            j <= flags.len(),
            values@.len() == j,
            forall|k: int| 0 <= k < j ==> values@[k] is None,
        decreases flags.len() - j,
    {
        values.push(None);
        j += 1;
    }
    assert(value_texts(values@) =~= no_values(flags@));
    let mut i: usize = 0;
    assert(texts(args@).skip(0) =~= texts(args@));
    while i < args.len()
        invariant
            i <= args@.len(),
            values@.len() == flags@.len(),
            scan(verb@, flags@, texts(args@), no_values(flags@)) == scan(
                verb@,
                flags@,
                texts(args@).skip(i as int),
                value_texts(values@),
            ),
        decreases args@.len() - i,
    {
        let arg: &str = args[i].as_str();
        let ghost rest = texts(args@).skip(i as int);
        assert(rest[0] == arg@);
        match find_flag(flags, arg) {
            Some(k) => {
                let given = if i + 1 < args.len() {
                    Some(args[i + 1].clone())
                } else {
                    None
                };
                match value_for(arg, given) {
                    Err(e) => {
                        return Err(e);
                    },
                    Ok(v) => {
                        assert(rest[1] == v@);
                        let ghost before = values@;
                        values[k] = Some(v);
                        assert(value_texts(values@) =~= value_texts(before).update(
                            k as int,
                            Some(v@),
                        ));
                        assert(rest.skip(2) =~= texts(args@).skip(i + 2));
                        i += 2;
                    },
                }
            },
            None => {
                if same(arg, "-h") || same(arg, "--help") {
                    return Ok(Parsed::Help);
                }
                let mut text = verb.to_string();
                text.append(": unexpected argument ");
                text.append(&quoted(arg));
                return Err(CarapaceError::Usage(text));
            },
        }
    }
    Ok(Parsed::Args(values))
}

/// `check` may be asked about every name.
pub open spec fn checks_names<F: Fn(&String) -> Result<(), CarapaceError>>(check: F) -> bool {
    forall|name: &String| #[trigger] call_requires(check, (name,))
}

/// `r` is what the arguments of `attach` come to: both flags are required, and `check`
/// has the say on the name, before the root is looked for.
pub open spec fn attach_outcome<F: Fn(&String) -> Result<(), CarapaceError>>(
    args: Seq<Seq<char>>,
    check: F,
    r: Result<Parsed<(String, String)>, CarapaceError>,
) -> bool {
    match scan("attach"@, attach_flags(), args, no_values(attach_flags())) {
        Scan::Wrong(text) => is_usage(r, text),
        Scan::Help => r is Ok && r->Ok_0 is Help,
        Scan::Values(values) => match values[0] {
            None => is_usage(r, "attach: --name is required"@),
            Some(name) => exists|given: String, verdict: Result<(), CarapaceError>|
                {
                    &&& given@ == name
                    &&& #[trigger] call_ensures(check, (&given,), verdict)
                    &&& match verdict {
                        Err(e) => r == Err::<Parsed<(String, String)>, CarapaceError>(e),
                        Ok(()) => match values[1] {
                            None => is_usage(r, "attach: --root is required"@),
                            Some(root) => {
                                &&& r is Ok
                                &&& r->Ok_0 is Args
                                &&& r->Ok_0->Args_0.0 == given
                                &&& r->Ok_0->Args_0.1@ == root
                            },
                        },
                    }
                },
        },
    }
}

/// `r` is what the arguments of `detach` come to: the name is required, and `check` has
/// the say on it.
pub open spec fn detach_outcome<F: Fn(&String) -> Result<(), CarapaceError>>(
    args: Seq<Seq<char>>,
    check: F,
    r: Result<Parsed<String>, CarapaceError>,
) -> bool {
    match scan("detach"@, detach_flags(), args, no_values(detach_flags())) {
        Scan::Wrong(text) => is_usage(r, text),
        Scan::Help => r is Ok && r->Ok_0 is Help,
        Scan::Values(values) => match values[0] {
            None => is_usage(r, "detach: --name is required"@),
            Some(name) => exists|given: String, verdict: Result<(), CarapaceError>|
                {
                    &&& given@ == name
                    &&& #[trigger] call_ensures(check, (&given,), verdict)
                    &&& match verdict {
                        Err(e) => r == Err::<Parsed<String>, CarapaceError>(e),
                        Ok(()) => r == Ok::<Parsed<String>, CarapaceError>(Parsed::Args(given)),
                    }
                },
        },
    }
}

/// What an import was asked for.
#[derive(Debug, PartialEq, Eq)]
pub struct ImportArgs {
    /// The path of the raw image.
    pub image: String,
    /// The path of the directory to write to.
    pub out: String,
    /// The reference to tag the artifact with.
    pub tag: String,
}

/// `r` is what the arguments of `import` come to: all three flags are required.
pub open spec fn import_outcome(
    args: Seq<Seq<char>>,
    r: Result<Parsed<ImportArgs>, CarapaceError>,
) -> bool {
    match scan("import"@, import_flags(), args, no_values(import_flags())) {
        Scan::Wrong(text) => is_usage(r, text),
        Scan::Help => r is Ok && r->Ok_0 is Help,
        Scan::Values(values) => match (values[0], values[1], values[2]) {
            (None, _, _) => is_usage(r, "import: --image is required"@),
            (_, None, _) => is_usage(r, "import: --out is required"@),
            (_, _, None) => is_usage(r, "import: --tag is required"@),
            (Some(image), Some(out), Some(tag)) => {
                &&& r is Ok
                &&& r->Ok_0 is Args
                &&& r->Ok_0->Args_0.image@ == image
                &&& r->Ok_0->Args_0.out@ == out
                &&& r->Ok_0->Args_0.tag@ == tag
            },
        },
    }
}

/// Parses the arguments of `attach` into the name and the root. `check` tells whether
/// the name can be a device's.
pub fn parse_attach<F: Fn(&String) -> Result<(), CarapaceError>>(args: &[String], check: F) -> (r:
    Result<Parsed<(String, String)>, CarapaceError>)
    requires
        checks_names(check),
    ensures
        attach_outcome(texts(args@), check, r),
{
    let flags = vec![
        Flag { short: "-n", long: "--name" },
        Flag { short: "-r", long: "--root" },
    ];
    assert(flags@ =~= attach_flags());
    let mut values = match read_flags("attach", &flags, args) {
        Err(e) => {
            return Err(e);
        },
        Ok(Parsed::Help) => {
            return Ok(Parsed::Help);
        },
        Ok(Parsed::Args(values)) => values,
    };
    let ghost all = value_texts(values@);
    let root = values.pop().unwrap();
    let name = values.pop().unwrap();
    assert(all[0] == (match name {
        Some(s) => Some(s@),
        None => None,
    }));
    assert(all[1] == (match root {
        Some(s) => Some(s@),
        None => None,
    }));
    let name = match name {
        Some(name) => name,
        None => {
            return Err(CarapaceError::Usage("attach: --name is required".to_string()));
        },
    };
    match check(&name) {
        Err(e) => {
            return Err(e);
        },
        Ok(()) => {},
    }
    match root {
        Some(root) => Ok(Parsed::Args((name, root))),
        None => Err(CarapaceError::Usage("attach: --root is required".to_string())),
    }
}

/// Parses the arguments of `detach` into the name. `check` tells whether it can be a
/// device's.
pub fn parse_detach<F: Fn(&String) -> Result<(), CarapaceError>>(args: &[String], check: F) -> (r:
    Result<Parsed<String>, CarapaceError>)
    requires
        checks_names(check),
    ensures
        detach_outcome(texts(args@), check, r),
{
    let flags = vec![Flag { short: "-n", long: "--name" }];
    assert(flags@ =~= detach_flags());
    let mut values = match read_flags("detach", &flags, args) {
        Err(e) => {
            return Err(e);
        },
        Ok(Parsed::Help) => {
            return Ok(Parsed::Help);
        },
        Ok(Parsed::Args(values)) => values,
    };
    let ghost all = value_texts(values@);
    let name = values.pop().unwrap();
    assert(all[0] == (match name {
        Some(s) => Some(s@),
        None => None,
    }));
    let name = match name {
        Some(name) => name,
        None => {
            return Err(CarapaceError::Usage("detach: --name is required".to_string()));
        },
    };
    match check(&name) {
        Err(e) => Err(e),
        Ok(()) => Ok(Parsed::Args(name)),
    }
}

/// Parses the arguments of `import`.
pub fn parse_import(args: &[String]) -> (r: Result<Parsed<ImportArgs>, CarapaceError>)
    ensures
        import_outcome(texts(args@), r),
{
    let flags = vec![
        Flag { short: "-i", long: "--image" },
        Flag { short: "-o", long: "--out" },
        Flag { short: "-t", long: "--tag" },
    ];
    assert(flags@ =~= import_flags());
    let mut values = match read_flags("import", &flags, args) {
        Err(e) => {
            return Err(e);
        },
        Ok(Parsed::Help) => {
            return Ok(Parsed::Help);
        },
        Ok(Parsed::Args(values)) => values,
    };
    let ghost all = value_texts(values@);
    let tag = values.pop().unwrap();
    let out = values.pop().unwrap();
    let image = values.pop().unwrap();
    assert(all[0] == (match image {
        Some(s) => Some(s@),
        None => None,
    }));
    assert(all[1] == (match out {
        Some(s) => Some(s@),
        None => None,
    }));
    assert(all[2] == (match tag {
        Some(s) => Some(s@),
        None => None,
    }));
    match (image, out, tag) {
        (None, _, _) => Err(CarapaceError::Usage("import: --image is required".to_string())),
        (_, None, _) => Err(CarapaceError::Usage("import: --out is required".to_string())),
        (_, _, None) => Err(CarapaceError::Usage("import: --tag is required".to_string())),
        (Some(image), Some(out), Some(tag)) => Ok(Parsed::Args(ImportArgs { image, out, tag })),
    }
}

/// What a command line asks for.
#[derive(Debug, PartialEq, Eq)]
pub enum Command {
    /// Print the help.
    Help,
    /// Print the version.
    Version,
    Attach { name: String, root: String },
    Detach { name: String },
    Import(ImportArgs),
}

/// What is to be done with a command line.
#[derive(Debug, PartialEq, Eq)]
pub enum Dispatch {
    Run(Command),
    /// There is no verb: print the help as a complaint, then fail.
    MissingVerb(CarapaceError),
    Fail(CarapaceError),
}

/// `d` does what `r` says, `command` being made of its arguments.
pub open spec fn follows<T>(
    d: Dispatch,
    r: Result<Parsed<T>, CarapaceError>,
    command: spec_fn(T) -> Command,
) -> bool {
    match r {
        Err(e) => d == Dispatch::Fail(e),
        Ok(Parsed::Help) => d == Dispatch::Run(Command::Help),
        Ok(Parsed::Args(t)) => d == Dispatch::Run(command(t)),
    }
}

/// `d` is what is to be done with the command line `args`, the program's name left
/// off.
pub open spec fn dispatch_outcome<F: Fn(&String) -> Result<(), CarapaceError>>(
    args: Seq<Seq<char>>,
    check: F,
    d: Dispatch,
) -> bool {
    if args.len() == 0 {
        d is MissingVerb && d->MissingVerb_0@ == CarapaceErrorModel::Usage("missing verb"@)
    } else {
        let verb = args[0];
        let rest = args.skip(1);
        if verb == "-h"@ || verb == "--help"@ {
            d == Dispatch::Run(Command::Help)
        } else if verb == "-V"@ || verb == "--version"@ {
            d == Dispatch::Run(Command::Version)
        } else if verb == "attach"@ {
            exists|r: Result<Parsed<(String, String)>, CarapaceError>|
                #[trigger] attach_outcome(rest, check, r) && follows(
                    d,
                    r,
                    |t: (String, String)| Command::Attach { name: t.0, root: t.1 },
                )
        } else if verb == "detach"@ {
            exists|r: Result<Parsed<String>, CarapaceError>|
                #[trigger] detach_outcome(rest, check, r) && follows(
                    d,
                    r,
                    |t: String| Command::Detach { name: t },
                )
        } else if verb == "import"@ {
            exists|r: Result<Parsed<ImportArgs>, CarapaceError>|
                #[trigger] import_outcome(rest, r) && follows(
                    d,
                    r,
                    |t: ImportArgs| Command::Import(t),
                )
        } else {
            d is Fail && d->Fail_0@ == CarapaceErrorModel::Usage(
                "unknown verb "@ + debug_text(verb)
                    + " (expected `attach`, `detach`, `--help`, or `--version`)"@,
            )
        }
    }
}

/// Decides what is to be done with a command line, the program's name left off. `check`
/// tells whether a name can be a device's.
pub fn parse_and_dispatch<F: Fn(&String) -> Result<(), CarapaceError>>(args: &[String], check: F) -> (r:
    Dispatch)
    requires
        checks_names(check),
    ensures
        dispatch_outcome(texts(args@), check, r),
{
    if args.len() == 0 {
        return Dispatch::MissingVerb(CarapaceError::Usage("missing verb".to_string()));
    }
    let verb: &str = args[0].as_str();
    assert(texts(args@)[0] == verb@);
    let rest = vstd::slice::slice_subrange(args, 1, args.len());
    assert(texts(rest@) =~= texts(args@).skip(1));
    if same(verb, "-h") || same(verb, "--help") {
        return Dispatch::Run(Command::Help);
    }
    if same(verb, "-V") || same(verb, "--version") {
        return Dispatch::Run(Command::Version);
    }
    if same(verb, "attach") {
        let r = parse_attach(rest, check);
        let ghost parsed = r;
        assert(attach_outcome(texts(rest@), check, parsed));
        return match r {
            Err(e) => Dispatch::Fail(e),
            Ok(Parsed::Help) => Dispatch::Run(Command::Help),
            Ok(Parsed::Args((name, root))) => Dispatch::Run(Command::Attach { name, root }),
        };
    }
    if same(verb, "detach") {
        let r = parse_detach(rest, check);
        let ghost parsed = r;
        assert(detach_outcome(texts(rest@), check, parsed));
        return match r {
            Err(e) => Dispatch::Fail(e),
            Ok(Parsed::Help) => Dispatch::Run(Command::Help),
            Ok(Parsed::Args(name)) => Dispatch::Run(Command::Detach { name }),
        };
    }
    if same(verb, "import") {
        let r = parse_import(rest);
        let ghost parsed = r;
        assert(import_outcome(texts(rest@), parsed));
        return match r {
            Err(e) => Dispatch::Fail(e),
            Ok(Parsed::Help) => Dispatch::Run(Command::Help),
            Ok(Parsed::Args(given)) => Dispatch::Run(Command::Import(given)),
        };
    }
    let mut text = "unknown verb ".to_string();
    text.append(&quoted(verb));
    text.append(" (expected `attach`, `detach`, `--help`, or `--version`)");
    Dispatch::Fail(CarapaceError::Usage(text))
}

/// The exit code of a run: 2 where the chain was rejected, so that an initrd can fail
/// closed; 1 for any other failure.
pub fn exit_code(error: Option<&CarapaceError>) -> (r: u8)
    ensures
        r == (match error {
            None => 0u8,
            Some(e) => if e is Rejected {
                2
            } else {
                1
            },
        }),
{
    match error {
        None => 0,
        Some(e) => if e.is_adversary_rejection() {
            2
        } else {
            1
        },
    }
}

/// The order in which two different flags are given makes no difference.
pub proof fn law_flag_order_is_free(
    verb: Seq<char>,
    flags: Seq<Flag>,
    a: (Seq<char>, Seq<char>),
    b: (Seq<char>, Seq<char>),
    rest: Seq<Seq<char>>,
    values: Seq<Option<Seq<char>>>,
)
    requires
        flag_index(flags, a.0) is Some,
        flag_index(flags, b.0) is Some,
        flag_index(flags, a.0) != flag_index(flags, b.0),
        values.len() == flags.len(),
    ensures
        scan(verb, flags, seq![a.0, a.1, b.0, b.1] + rest, values) == scan(
            verb,
            flags,
            seq![b.0, b.1, a.0, a.1] + rest,
            values,
        ),
{
    let i = flag_index(flags, a.0)->0;
    let j = flag_index(flags, b.0)->0;
    lemma_flag_in_range(flags, a.0);
    lemma_flag_in_range(flags, b.0);
    let x = seq![a.0, a.1, b.0, b.1] + rest;
    let y = seq![b.0, b.1, a.0, a.1] + rest;
    assert(x =~= seq![a.0, a.1] + (seq![b.0, b.1] + rest));
    assert(y =~= seq![b.0, b.1] + (seq![a.0, a.1] + rest));
    lemma_scan_flag(verb, flags, a, seq![b.0, b.1] + rest, values);
    lemma_scan_flag(verb, flags, b, rest, values.update(i, Some(a.1)));
    lemma_scan_flag(verb, flags, b, seq![a.0, a.1] + rest, values);
    lemma_scan_flag(verb, flags, a, rest, values.update(j, Some(b.1)));
    assert(values.update(i, Some(a.1)).update(j, Some(b.1)) =~= values.update(j, Some(b.1)).update(
        i,
        Some(a.1),
    ));
}

/// A flag and its value at the front are taken in, and the rest is scanned.
proof fn lemma_scan_flag(
    verb: Seq<char>,
    flags: Seq<Flag>,
    a: (Seq<char>, Seq<char>),
    rest: Seq<Seq<char>>,
    values: Seq<Option<Seq<char>>>,
)
    requires
        flag_index(flags, a.0) is Some,
    ensures
        scan(verb, flags, seq![a.0, a.1] + rest, values) == scan(
            verb,
            flags,
            rest,
            values.update(flag_index(flags, a.0)->0, Some(a.1)),
        ),
{
    assert((seq![a.0, a.1] + rest).skip(2) =~= rest);
}

proof fn lemma_flag_in_range(flags: Seq<Flag>, arg: Seq<char>)
    ensures
        flag_index(flags, arg) is Some ==> 0 <= flag_index(flags, arg)->0 < flags.len(),
    decreases flags.len(),
{
    if flags.len() > 0 {
        lemma_flag_in_range(flags.drop_last(), arg);
    }
}

/// A flag that is given twice has the value that was given last.
pub proof fn law_last_value_wins(
    verb: Seq<char>,
    flags: Seq<Flag>,
    a: (Seq<char>, Seq<char>),
    b: (Seq<char>, Seq<char>),
    rest: Seq<Seq<char>>,
    values: Seq<Option<Seq<char>>>,
)
    requires
        flag_index(flags, a.0) is Some,
        flag_index(flags, a.0) == flag_index(flags, b.0),
        values.len() == flags.len(),
    ensures
        scan(verb, flags, seq![a.0, a.1, b.0, b.1] + rest, values) == scan(
            verb,
            flags,
            seq![b.0, b.1] + rest,
            values,
        ),
{
    let k = flag_index(flags, a.0)->0;
    lemma_flag_in_range(flags, a.0);
    let x = seq![a.0, a.1, b.0, b.1] + rest;
    let y = seq![b.0, b.1] + rest;
    assert(x =~= seq![a.0, a.1] + y);
    lemma_scan_flag(verb, flags, a, y, values);
    lemma_scan_flag(verb, flags, b, rest, values.update(k, Some(a.1)));
    lemma_scan_flag(verb, flags, b, rest, values);
    assert(values.update(k, Some(a.1)).update(k, Some(b.1)) =~= values.update(k, Some(b.1)));
}

/// The short and the long form of a flag mean the same.
pub proof fn law_short_and_long_agree(flags: Seq<Flag>, k: int)
    requires
        0 <= k < flags.len(),
        forall|i: int|
            0 <= i < k ==> !(#[trigger] flags[i]).is(flags[k].short@) && !flags[i].is(
                flags[k].long@,
            ),
    ensures
        flag_index(flags, flags[k].short@) == Some(k),
        flag_index(flags, flags[k].long@) == Some(k),
{
    let front = flags.take(k + 1);
    assert(front.drop_last() =~= flags.take(k));
    lemma_no_flag(flags.take(k), flags[k].short@);
    lemma_no_flag(flags.take(k), flags[k].long@);
    lemma_flag_stays(flags, flags[k].short@, k + 1);
    lemma_flag_stays(flags, flags[k].long@, k + 1);
}

proof fn lemma_no_flag(flags: Seq<Flag>, arg: Seq<char>)
    requires
        forall|i: int| 0 <= i < flags.len() ==> !(#[trigger] flags[i]).is(arg),
    ensures
        flag_index(flags, arg) is None,
    decreases flags.len(),
{
    if flags.len() > 0 {
        lemma_no_flag(flags.drop_last(), arg);
    }
}

/// The value that arguments give a flag, in its short or its long form: the last one.
pub open spec fn given(args: Seq<Seq<char>>, short: Seq<char>, long: Seq<char>) -> Option<Seq<char>>
    decreases args.len(),
{
    if args.len() < 2 {
        None
    } else {
        match given(args.skip(2), short, long) {
            Some(v) => Some(v),
            None => if args[0] == short || args[0] == long {
                Some(args[1])
            } else {
                None
            },
        }
    }
}

/// Flags and values alternate, and each flag is one of `known`.
pub open spec fn in_pairs(args: Seq<Seq<char>>, known: Seq<Seq<char>>) -> bool {
    &&& args.len() % 2 == 0
    &&& forall|i: int|
        0 <= i < args.len() && i % 2 == 0 ==> known.contains(#[trigger] args[i])
}

/// Each argument is at most one of `flags`.
spec fn told_apart(flags: Seq<Flag>) -> bool {
    forall|k: int, arg: Seq<char>|
        0 <= k < flags.len() ==> (#[trigger] flag_index(flags, arg) == Some(k) <==> (
        #[trigger] flags[k]).is(arg))
}

/// What was scanned so far stands, and the rest is scanned after it.
proof fn lemma_scan_goes_on(
    verb: Seq<char>,
    flags: Seq<Flag>,
    args: Seq<Seq<char>>,
    rest: Seq<Seq<char>>,
    values: Seq<Option<Seq<char>>>,
)
    requires
        scan(verb, flags, args, values) is Values,
    ensures
        scan(verb, flags, args + rest, values) == scan(
            verb,
            flags,
            rest,
            scan(verb, flags, args, values)->Values_0,
        ),
    decreases args.len(),
{
    if args.len() == 0 {
        assert(args + rest =~= rest);
    } else {
        let k = flag_index(flags, args[0])->0;
        assert((args + rest)[0] == args[0]);
        assert((args + rest)[1] == args[1]);
        assert((args + rest).skip(2) =~= args.skip(2) + rest);
        lemma_scan_goes_on(verb, flags, args.skip(2), rest, values.update(k, Some(args[1])));
    }
}

/// Pairs of flags and values give each flag the last of its values.
proof fn lemma_pairs(
    verb: Seq<char>,
    flags: Seq<Flag>,
    args: Seq<Seq<char>>,
    values: Seq<Option<Seq<char>>>,
)
    requires
        told_apart(flags),
        values.len() == flags.len(),
        args.len() % 2 == 0,
        forall|i: int|
            0 <= i < args.len() && i % 2 == 0 ==> flag_index(flags, #[trigger] args[i]) is Some,
    ensures
        ({
            let r = scan(verb, flags, args, values);
            &&& r is Values
            &&& r->Values_0.len() == flags.len()
            &&& forall|k: int|
                0 <= k < flags.len() ==> (#[trigger] r->Values_0[k]) == (match given(
                    args,
                    flags[k].short@,
                    flags[k].long@,
                ) {
                    Some(v) => Some(v),
                    None => values[k],
                })
        }),
    decreases args.len(),
{
    if args.len() > 0 {
        let rest = args.skip(2);
        assert(flag_index(flags, args[0]) is Some);
        lemma_flag_in_range(flags, args[0]);
        let j = flag_index(flags, args[0])->0;
        assert forall|i: int| 0 <= i < rest.len() && i % 2 == 0 implies flag_index(
            flags,
            #[trigger] rest[i],
        ) is Some by {
            assert(rest[i] == args[i + 2]);
        }
        let next = values.update(j, Some(args[1]));
        lemma_pairs(verb, flags, rest, next);
        let r = scan(verb, flags, args, values);
        assert(r == scan(verb, flags, rest, next));
        assert forall|k: int| 0 <= k < flags.len() implies (#[trigger] r->Values_0[k]) == (match given(
            args,
            flags[k].short@,
            flags[k].long@,
        ) {
            Some(v) => Some(v),
            None => values[k],
        }) by {
            assert(flag_index(flags, args[0]) == Some(k) <==> flags[k].is(args[0]));
        }
    }
}

/// The flags of the verbs, as they are written.
proof fn lemma_flags(arg: Seq<char>)
    ensures
        told_apart(attach_flags()),
        told_apart(detach_flags()),
        told_apart(import_flags()),
        flag_index(attach_flags(), arg) is Some <==> arg == "-n"@ || arg == "--name"@ || arg == "-r"@
            || arg == "--root"@,
        flag_index(detach_flags(), arg) is Some <==> arg == "-n"@ || arg == "--name"@,
        flag_index(import_flags(), arg) is Some <==> arg == "-i"@ || arg == "--image"@ || arg
            == "-o"@ || arg == "--out"@ || arg == "-t"@ || arg == "--tag"@,
        attach_flags().len() == 2 && detach_flags().len() == 1 && import_flags().len() == 3,
        attach_flags()[0].short@ == "-n"@ && attach_flags()[0].long@ == "--name"@,
        attach_flags()[1].short@ == "-r"@ && attach_flags()[1].long@ == "--root"@,
        detach_flags()[0].short@ == "-n"@ && detach_flags()[0].long@ == "--name"@,
        import_flags()[0].short@ == "-i"@ && import_flags()[0].long@ == "--image"@,
        import_flags()[1].short@ == "-o"@ && import_flags()[1].long@ == "--out"@,
        import_flags()[2].short@ == "-t"@ && import_flags()[2].long@ == "--tag"@,
{
    lemma_literals();
    lemma_flag_index(attach_flags());
    lemma_flag_index(detach_flags());
    lemma_flag_index(import_flags());
    lemma_flag_in_range(attach_flags(), arg);
    lemma_flag_in_range(detach_flags(), arg);
    lemma_flag_in_range(import_flags(), arg);
    assert(attach_flags()[0].is(arg) == (arg == "-n"@ || arg == "--name"@));
    assert(attach_flags()[1].is(arg) == (arg == "-r"@ || arg == "--root"@));
    assert(detach_flags()[0].is(arg) == (arg == "-n"@ || arg == "--name"@));
    assert(import_flags()[0].is(arg) == (arg == "-i"@ || arg == "--image"@));
    assert(import_flags()[1].is(arg) == (arg == "-o"@ || arg == "--out"@));
    assert(import_flags()[2].is(arg) == (arg == "-t"@ || arg == "--tag"@));
}

/// Where no two flags share a form, an argument is the flag that it matches.
proof fn lemma_flag_index(flags: Seq<Flag>)
    requires
        forall|i: int, j: int, arg: Seq<char>|
            0 <= i < j < flags.len() && #[trigger] flags[i].is(arg) ==> !(#[trigger] flags[j].is(
                arg,
            )),
    ensures
        told_apart(flags),
{
    assert forall|k: int, arg: Seq<char>| 0 <= k < flags.len() implies (#[trigger] flag_index(
        flags,
        arg,
    ) == Some(k) <==> (#[trigger] flags[k]).is(arg)) by {
        lemma_index_matches(flags, arg);
        lemma_flag_in_range(flags, arg);
        if flags[k].is(arg) {
            let front = flags.take(k + 1);
            assert(front.drop_last() =~= flags.take(k));
            assert forall|i: int| 0 <= i < k implies !(#[trigger] flags.take(k)[i]).is(arg) by {
                assert(flags.take(k)[i] == flags[i]);
                assert(flags[i].is(arg) ==> !flags[k].is(arg));
            }
            lemma_no_flag(flags.take(k), arg);
            lemma_flag_stays(flags, arg, k + 1);
        }
    }
}

/// The flag that an argument is found to be matches it.
proof fn lemma_index_matches(flags: Seq<Flag>, arg: Seq<char>)
    ensures
        flag_index(flags, arg) is Some ==> 0 <= flag_index(flags, arg)->0 < flags.len()
            && flags[flag_index(flags, arg)->0].is(arg),
    decreases flags.len(),
{
    if flags.len() > 0 {
        lemma_index_matches(flags.drop_last(), arg);
    }
}

/// The arguments that are spelled out here all differ.
proof fn lemma_literals()
    ensures
        "-n"@ == seq!['-', 'n'],
        "-r"@ == seq!['-', 'r'],
        "-i"@ == seq!['-', 'i'],
        "-o"@ == seq!['-', 'o'],
        "-t"@ == seq!['-', 't'],
        "-h"@ == seq!['-', 'h'],
        "--name"@.len() == 6 && "--name"@[2] == 'n',
        "--root"@.len() == 6 && "--root"@[2] == 'r',
        "--help"@.len() == 6 && "--help"@[2] == 'h',
        "--image"@.len() == 7,
        "--out"@.len() == 5 && "--out"@[2] == 'o',
        "--tag"@.len() == 5 && "--tag"@[2] == 't',
        "-n"@[1] == 'n' && "-r"@[1] == 'r' && "-i"@[1] == 'i' && "-o"@[1] == 'o' && "-t"@[1] == 't'
            && "-h"@[1] == 'h',
{
    reveal_strlit("-n");
    reveal_strlit("-r");
    reveal_strlit("-i");
    reveal_strlit("-o");
    reveal_strlit("-t");
    reveal_strlit("-h");
    reveal_strlit("--name");
    reveal_strlit("--root");
    reveal_strlit("--help");
    reveal_strlit("--image");
    reveal_strlit("--out");
    reveal_strlit("--tag");
    assert("-n"@ =~= seq!['-', 'n']);
    assert("-r"@ =~= seq!['-', 'r']);
    assert("-i"@ =~= seq!['-', 'i']);
    assert("-o"@ =~= seq!['-', 'o']);
    assert("-t"@ =~= seq!['-', 't']);
    assert("-h"@ =~= seq!['-', 'h']);
}

/// What the arguments of `import` come to, where flags and values alternate.
proof fn lemma_import(args: Seq<Seq<char>>, r: Result<Parsed<ImportArgs>, CarapaceError>)
    requires
        import_outcome(args, r),
        in_pairs(args, seq!["-i"@, "--image"@, "-o"@, "--out"@, "-t"@, "--tag"@]),
    ensures
        imports(args, r),
{
    lemma_flags(args[0]);
    assert forall|i: int| 0 <= i < args.len() && i % 2 == 0 implies flag_index(
        import_flags(),
        #[trigger] args[i],
    ) is Some by {
        lemma_flags(args[i]);
        assert(seq!["-i"@, "--image"@, "-o"@, "--out"@, "-t"@, "--tag"@].contains(args[i]));
    }
    let flags = import_flags();
    lemma_pairs("import"@, flags, args, no_values(flags));
    let values = scan("import"@, flags, args, no_values(flags))->Values_0;
    assert(values[0] == given(args, "-i"@, "--image"@));
    assert(values[1] == given(args, "-o"@, "--out"@));
    assert(values[2] == given(args, "-t"@, "--tag"@));
}

/// `r` is an import of the image, to the directory and under the tag that `args` give; or
/// the error that says which of them is missing.
spec fn imports(args: Seq<Seq<char>>, r: Result<Parsed<ImportArgs>, CarapaceError>) -> bool {
    match (given(args, "-i"@, "--image"@), given(args, "-o"@, "--out"@), given(args, "-t"@, "--tag"@)) {
        (Some(image), Some(out), Some(tag)) => {
            &&& r is Ok && r->Ok_0 is Args
            &&& r->Ok_0->Args_0.image@ == image
            &&& r->Ok_0->Args_0.out@ == out
            &&& r->Ok_0->Args_0.tag@ == tag
        },
        (None, _, _) => is_usage(r, "import: --image is required"@),
        (_, None, _) => is_usage(r, "import: --out is required"@),
        (_, _, None) => is_usage(r, "import: --tag is required"@),
    }
}

/// An import takes its image from `--image` or `-i`, its directory from `--out` or `-o` and
/// its tag from `--tag` or `-t`, in whatever order they come, each the last that is given;
/// it is an error that one of them is missing.
pub proof fn law_import_takes_each_flag(
    args: &[String],
    r: Result<Parsed<ImportArgs>, CarapaceError>,
)
    requires
        call_ensures(parse_import, (args,), r),
        in_pairs(texts(args@), seq!["-i"@, "--image"@, "-o"@, "--out"@, "-t"@, "--tag"@]),
    ensures
        ({
            let a = texts(args@);
            let image = given(a, "-i"@, "--image"@);
            let out = given(a, "-o"@, "--out"@);
            let tag = given(a, "-t"@, "--tag"@);
            &&& image is Some && out is Some && tag is Some ==> {
                &&& r is Ok && r->Ok_0 is Args
                &&& r->Ok_0->Args_0.image@ == image->0
                &&& r->Ok_0->Args_0.out@ == out->0
                &&& r->Ok_0->Args_0.tag@ == tag->0
            }
            &&& image is None ==> is_usage(r, "import: --image is required"@)
            &&& image is Some && out is None ==> is_usage(r, "import: --out is required"@)
            &&& image is Some && out is Some && tag is None ==> is_usage(
                r,
                "import: --tag is required"@,
            )
        }),
{
    lemma_import(texts(args@), r);
}

/// The three flags of an import, in their long form or their short one, say what they say.
pub proof fn law_import_reads_its_flags(
    args: &[String],
    r: Result<Parsed<ImportArgs>, CarapaceError>,
    image: Seq<char>,
    out: Seq<char>,
    tag: Seq<char>,
)
    requires
        call_ensures(parse_import, (args,), r),
        texts(args@) == seq!["--image"@, image, "--out"@, out, "--tag"@, tag] || texts(args@)
            == seq!["-i"@, image, "-o"@, out, "-t"@, tag],
    ensures
        r is Ok && r->Ok_0 is Args,
        r->Ok_0->Args_0.image@ == image,
        r->Ok_0->Args_0.out@ == out,
        r->Ok_0->Args_0.tag@ == tag,
{
    let a = texts(args@);
    let known = seq!["-i"@, "--image"@, "-o"@, "--out"@, "-t"@, "--tag"@];
    lemma_literals();
    assert(known[0] == "-i"@ && known[1] == "--image"@ && known[2] == "-o"@ && known[3] == "--out"@
        && known[4] == "-t"@ && known[5] == "--tag"@);
    assert forall|i: int| 0 <= i < a.len() && i % 2 == 0 implies known.contains(#[trigger] a[i]) by {
        assert(i == 0 || i == 2 || i == 4);
    }
    law_import_takes_each_flag(args, r);
    reveal_with_fuel(given, 5);
    assert(a.skip(2).skip(2).skip(2).len() == 0);
}

/// An attach takes its name from `--name` or `-n` and its root from `--root` or `-r`, in
/// whatever order they come, each the last that is given. The name is put to `check`, and
/// what that says of it stands; it is an error that one of the two is missing.
pub proof fn law_attach_takes_each_flag<F: Fn(&String) -> Result<(), CarapaceError>>(
    args: &[String],
    check: F,
    r: Result<Parsed<(String, String)>, CarapaceError>,
)
    requires
        call_ensures(parse_attach::<F>, (args, check), r),
        in_pairs(texts(args@), seq!["-n"@, "--name"@, "-r"@, "--root"@]),
    ensures
        attaches(texts(args@), check, r),
        given(texts(args@), "-n"@, "--name"@) is None ==> is_usage(r, "attach: --name is required"@),
        r is Ok ==> r->Ok_0 is Args && given(texts(args@), "-n"@, "--name"@) == Some(
            r->Ok_0->Args_0.0@,
        ) && given(texts(args@), "-r"@, "--root"@) == Some(r->Ok_0->Args_0.1@),
{
    lemma_attach(texts(args@), check, r);
}

/// `r` is an attach under the name and of the root that `args` give, once `check` has passed
/// the name; or its error; or the error that says which of the two is missing.
pub open spec fn attaches<F: Fn(&String) -> Result<(), CarapaceError>>(
    args: Seq<Seq<char>>,
    check: F,
    r: Result<Parsed<(String, String)>, CarapaceError>,
) -> bool {
    match given(args, "-n"@, "--name"@) {
        None => is_usage(r, "attach: --name is required"@),
        Some(name) => exists|n: String, verdict: Result<(), CarapaceError>|
            {
                &&& n@ == name
                &&& #[trigger] call_ensures(check, (&n,), verdict)
                &&& verdict is Err ==> r == Err::<Parsed<(String, String)>, CarapaceError>(
                    verdict->Err_0,
                )
                &&& verdict is Ok && given(args, "-r"@, "--root"@) is None ==> is_usage(
                    r,
                    "attach: --root is required"@,
                )
                &&& verdict is Ok && given(args, "-r"@, "--root"@) is Some ==> {
                    &&& r is Ok && r->Ok_0 is Args
                    &&& r->Ok_0->Args_0.0@ == name
                    &&& r->Ok_0->Args_0.1@ == given(args, "-r"@, "--root"@)->0
                }
            },
    }
}

proof fn lemma_attach<F: Fn(&String) -> Result<(), CarapaceError>>(
    args: Seq<Seq<char>>,
    check: F,
    r: Result<Parsed<(String, String)>, CarapaceError>,
)
    requires
        attach_outcome(args, check, r),
        in_pairs(args, seq!["-n"@, "--name"@, "-r"@, "--root"@]),
    ensures
        attaches(args, check, r),
        r is Ok ==> r->Ok_0 is Args && given(args, "-n"@, "--name"@) == Some(r->Ok_0->Args_0.0@)
            && given(args, "-r"@, "--root"@) == Some(r->Ok_0->Args_0.1@),
{
    lemma_flags(args[0]);
    assert forall|i: int| 0 <= i < args.len() && i % 2 == 0 implies flag_index(
        attach_flags(),
        #[trigger] args[i],
    ) is Some by {
        lemma_flags(args[i]);
        assert(seq!["-n"@, "--name"@, "-r"@, "--root"@].contains(args[i]));
    }
    let flags = attach_flags();
    lemma_pairs("attach"@, flags, args, no_values(flags));
    let values = scan("attach"@, flags, args, no_values(flags))->Values_0;
    assert(values[0] == given(args, "-n"@, "--name"@));
    assert(values[1] == given(args, "-r"@, "--root"@));
}

/// A detach takes its name from `--name` or `-n`, the last that is given. It is put to
/// `check`, and what that says of it stands; it is an error that it is missing.
pub proof fn law_detach_takes_its_flag<F: Fn(&String) -> Result<(), CarapaceError>>(
    args: &[String],
    check: F,
    r: Result<Parsed<String>, CarapaceError>,
)
    requires
        call_ensures(parse_detach::<F>, (args, check), r),
        in_pairs(texts(args@), seq!["-n"@, "--name"@]),
    ensures
        detaches(texts(args@), check, r),
        given(texts(args@), "-n"@, "--name"@) is None ==> is_usage(r, "detach: --name is required"@),
        r is Ok ==> r->Ok_0 is Args && given(texts(args@), "-n"@, "--name"@) == Some(
            r->Ok_0->Args_0@,
        ),
{
    lemma_detach(texts(args@), check, r);
}

/// `r` is a detach of the name that `args` give, once `check` has passed it; or its error; or
/// the error that says that it is missing.
pub open spec fn detaches<F: Fn(&String) -> Result<(), CarapaceError>>(
    args: Seq<Seq<char>>,
    check: F,
    r: Result<Parsed<String>, CarapaceError>,
) -> bool {
    match given(args, "-n"@, "--name"@) {
        None => is_usage(r, "detach: --name is required"@),
        Some(name) => exists|n: String, verdict: Result<(), CarapaceError>|
            {
                &&& n@ == name
                &&& #[trigger] call_ensures(check, (&n,), verdict)
                &&& verdict is Err ==> r == Err::<Parsed<String>, CarapaceError>(verdict->Err_0)
                &&& verdict is Ok ==> r is Ok && r->Ok_0 is Args && r->Ok_0->Args_0@ == name
            },
    }
}

proof fn lemma_detach<F: Fn(&String) -> Result<(), CarapaceError>>(
    args: Seq<Seq<char>>,
    check: F,
    r: Result<Parsed<String>, CarapaceError>,
)
    requires
        detach_outcome(args, check, r),
        in_pairs(args, seq!["-n"@, "--name"@]),
    ensures
        detaches(args, check, r),
        r is Ok ==> r->Ok_0 is Args && given(args, "-n"@, "--name"@) == Some(r->Ok_0->Args_0@),
{
    lemma_flags(args[0]);
    assert forall|i: int| 0 <= i < args.len() && i % 2 == 0 implies flag_index(
        detach_flags(),
        #[trigger] args[i],
    ) is Some by {
        lemma_flags(args[i]);
        assert(seq!["-n"@, "--name"@].contains(args[i]));
    }
    let flags = detach_flags();
    lemma_pairs("detach"@, flags, args, no_values(flags));
    let values = scan("detach"@, flags, args, no_values(flags))->Values_0;
    assert(values[0] == given(args, "-n"@, "--name"@));
}

/// What ends the pairs of flags and values of an import, at whatever place: a request for help
/// is granted, a flag without a value is an error, and so is anything else. What comes
/// after it is not looked at.
pub proof fn law_import_tells_stray_arguments(
    args: &[String],
    r: Result<Parsed<ImportArgs>, CarapaceError>,
    pairs: Seq<Seq<char>>,
    stray: Seq<char>,
    rest: Seq<Seq<char>>,
)
    requires
        call_ensures(parse_import, (args,), r),
        texts(args@) == pairs + seq![stray] + rest,
        in_pairs(pairs, seq!["-i"@, "--image"@, "-o"@, "--out"@, "-t"@, "--tag"@]),
    ensures
        stray == "-h"@ || stray == "--help"@ ==> r is Ok && r->Ok_0 is Help,
        rest.len() == 0 && seq!["-i"@, "--image"@, "-o"@, "--out"@, "-t"@, "--tag"@].contains(stray) ==> is_usage(r, stray + " requires a value"@),
        stray != "-h"@ && stray != "--help"@ && !seq!["-i"@, "--image"@, "-o"@, "--out"@, "-t"@, "--tag"@].contains(stray) ==> is_usage(
            r,
            "import"@ + ": unexpected argument "@ + debug_text(stray),
        ),
{
    let whole = seq![stray] + rest;
    let flags = import_flags();
    assert(texts(args@) =~= pairs + whole);
    assert(whole[0] == stray);
    lemma_literals();
    lemma_flags(stray);
    lemma_contains_six("-i"@, "--image"@, "-o"@, "--out"@, "-t"@, "--tag"@, stray);
    assert forall|i: int| 0 <= i < pairs.len() && i % 2 == 0 implies flag_index(
        flags,
        #[trigger] pairs[i],
    ) is Some by {
        lemma_flags(pairs[i]);
        assert(seq!["-i"@, "--image"@, "-o"@, "--out"@, "-t"@, "--tag"@].contains(pairs[i]));
    }
    lemma_pairs("import"@, flags, pairs, no_values(flags));
    lemma_scan_goes_on("import"@, flags, pairs, whole, no_values(flags));
    let values = scan("import"@, flags, pairs, no_values(flags))->Values_0;
    let end = scan("import"@, flags, whole, values);
    assert(scan("import"@, flags, texts(args@), no_values(flags)) == end);
    if stray == "-h"@ || stray == "--help"@ {
        assert(flag_index(flags, stray) is None);
        assert(end is Help);
    }
}

/// What ends the pairs of flags and values of an attach, at whatever place: a request for help
/// is granted, a flag without a value is an error, and so is anything else. What comes
/// after it is not looked at.
pub proof fn law_attach_tells_stray_arguments<F: Fn(&String) -> Result<(), CarapaceError>>(
    args: &[String],
    check: F,
    r: Result<Parsed<(String, String)>, CarapaceError>,
    pairs: Seq<Seq<char>>,
    stray: Seq<char>,
    rest: Seq<Seq<char>>,
)
    requires
        call_ensures(parse_attach::<F>, (args, check), r),
        texts(args@) == pairs + seq![stray] + rest,
        in_pairs(pairs, seq!["-n"@, "--name"@, "-r"@, "--root"@]),
    ensures
        stray == "-h"@ || stray == "--help"@ ==> r is Ok && r->Ok_0 is Help,
        rest.len() == 0 && seq!["-n"@, "--name"@, "-r"@, "--root"@].contains(stray) ==> is_usage(r, stray + " requires a value"@),
        stray != "-h"@ && stray != "--help"@ && !seq!["-n"@, "--name"@, "-r"@, "--root"@].contains(stray) ==> is_usage(
            r,
            "attach"@ + ": unexpected argument "@ + debug_text(stray),
        ),
{
    let whole = seq![stray] + rest;
    let flags = attach_flags();
    assert(texts(args@) =~= pairs + whole);
    assert(whole[0] == stray);
    lemma_literals();
    lemma_flags(stray);
    lemma_contains_four("-n"@, "--name"@, "-r"@, "--root"@, stray);
    assert forall|i: int| 0 <= i < pairs.len() && i % 2 == 0 implies flag_index(
        flags,
        #[trigger] pairs[i],
    ) is Some by {
        lemma_flags(pairs[i]);
        assert(seq!["-n"@, "--name"@, "-r"@, "--root"@].contains(pairs[i]));
    }
    lemma_pairs("attach"@, flags, pairs, no_values(flags));
    lemma_scan_goes_on("attach"@, flags, pairs, whole, no_values(flags));
    let values = scan("attach"@, flags, pairs, no_values(flags))->Values_0;
    let end = scan("attach"@, flags, whole, values);
    assert(scan("attach"@, flags, texts(args@), no_values(flags)) == end);
    if stray == "-h"@ || stray == "--help"@ {
        assert(flag_index(flags, stray) is None);
        assert(end is Help);
    }
}

/// What ends the pairs of flags and values of a detach, at whatever place: a request for help
/// is granted, a flag without a value is an error, and so is anything else. What comes
/// after it is not looked at.
pub proof fn law_detach_tells_stray_arguments<F: Fn(&String) -> Result<(), CarapaceError>>(
    args: &[String],
    check: F,
    r: Result<Parsed<String>, CarapaceError>,
    pairs: Seq<Seq<char>>,
    stray: Seq<char>,
    rest: Seq<Seq<char>>,
)
    requires
        call_ensures(parse_detach::<F>, (args, check), r),
        texts(args@) == pairs + seq![stray] + rest,
        in_pairs(pairs, seq!["-n"@, "--name"@]),
    ensures
        stray == "-h"@ || stray == "--help"@ ==> r is Ok && r->Ok_0 is Help,
        rest.len() == 0 && seq!["-n"@, "--name"@].contains(stray) ==> is_usage(r, stray + " requires a value"@),
        stray != "-h"@ && stray != "--help"@ && !seq!["-n"@, "--name"@].contains(stray) ==> is_usage(
            r,
            "detach"@ + ": unexpected argument "@ + debug_text(stray),
        ),
{
    let whole = seq![stray] + rest;
    let flags = detach_flags();
    assert(texts(args@) =~= pairs + whole);
    assert(whole[0] == stray);
    lemma_literals();
    lemma_flags(stray);
    assert(seq!["-n"@, "--name"@][0] == "-n"@ && seq!["-n"@, "--name"@][1] == "--name"@);
    assert forall|i: int| 0 <= i < pairs.len() && i % 2 == 0 implies flag_index(
        flags,
        #[trigger] pairs[i],
    ) is Some by {
        lemma_flags(pairs[i]);
        assert(seq!["-n"@, "--name"@].contains(pairs[i]));
    }
    lemma_pairs("detach"@, flags, pairs, no_values(flags));
    lemma_scan_goes_on("detach"@, flags, pairs, whole, no_values(flags));
    let values = scan("detach"@, flags, pairs, no_values(flags))->Values_0;
    let end = scan("detach"@, flags, whole, values);
    assert(scan("detach"@, flags, texts(args@), no_values(flags)) == end);
    if stray == "-h"@ || stray == "--help"@ {
        assert(flag_index(flags, stray) is None);
        assert(end is Help);
    }
}

proof fn lemma_contains_four(a: Seq<char>, b: Seq<char>, c: Seq<char>, d: Seq<char>, x: Seq<char>)
    ensures
        seq![a, b, c, d].contains(x) <==> x == a || x == b || x == c || x == d,
{
    let s = seq![a, b, c, d];
    assert(s[0] == a && s[1] == b && s[2] == c && s[3] == d);
}

proof fn lemma_contains_six(
    a: Seq<char>,
    b: Seq<char>,
    c: Seq<char>,
    d: Seq<char>,
    e: Seq<char>,
    f: Seq<char>,
    x: Seq<char>,
)
    ensures
        seq![a, b, c, d, e, f].contains(x) <==> x == a || x == b || x == c || x == d || x == e || x
            == f,
{
    let s = seq![a, b, c, d, e, f];
    assert(s[0] == a && s[1] == b && s[2] == c && s[3] == d && s[4] == e && s[5] == f);
}

/// What a command line asks for goes by its first word: help, the version, or a verb with
/// its own flags. Any other word is an error, and so is none.
pub proof fn law_verbs_do_what_they_say<F: Fn(&String) -> Result<(), CarapaceError>>(
    args: &[String],
    check: F,
    d: Dispatch,
)
    requires
        call_ensures(parse_and_dispatch::<F>, (args, check), d),
    ensures
        args@.len() == 0 ==> d is MissingVerb && d->MissingVerb_0@ == CarapaceErrorModel::Usage(
            "missing verb"@,
        ),
        args@.len() > 0 ==> ({
            let verb = args@[0]@;
            let rest = texts(args@).skip(1);
            &&& verb == "-h"@ || verb == "--help"@ ==> d == Dispatch::Run(Command::Help)
            &&& verb == "-V"@ || verb == "--version"@ ==> d == Dispatch::Run(Command::Version)
            &&& verb == "import"@ && in_pairs(rest, seq!["-i"@, "--image"@, "-o"@, "--out"@, "-t"@, "--tag"@]) && given(rest, "-i"@, "--image"@) is Some
                && given(rest, "-o"@, "--out"@) is Some && given(rest, "-t"@, "--tag"@) is Some ==> {
                &&& d is Run && d->Run_0 is Import
                &&& given(rest, "-i"@, "--image"@) == Some(d->Run_0->Import_0.image@)
                &&& given(rest, "-o"@, "--out"@) == Some(d->Run_0->Import_0.out@)
                &&& given(rest, "-t"@, "--tag"@) == Some(d->Run_0->Import_0.tag@)
            }
            &&& verb == "attach"@ && in_pairs(rest, seq!["-n"@, "--name"@, "-r"@, "--root"@]) ==> {
                &&& d is Fail || d is Run && d->Run_0 is Attach && given(rest, "-n"@, "--name"@)
                    == Some(d->Run_0->Attach_name@) && given(rest, "-r"@, "--root"@) == Some(
                    d->Run_0->root@,
                )
                &&& exists|r: Result<Parsed<(String, String)>, CarapaceError>|
                    #[trigger] attaches(rest, check, r) && (r is Ok <==> d is Run) && (r is Err
                        ==> d == Dispatch::Fail(r->Err_0))
            }
            &&& verb == "detach"@ && in_pairs(rest, seq!["-n"@, "--name"@]) ==> {
                &&& d is Fail || d is Run && d->Run_0 is Detach && given(rest, "-n"@, "--name"@)
                    == Some(d->Run_0->Detach_name@)
                &&& exists|r: Result<Parsed<String>, CarapaceError>|
                    #[trigger] detaches(rest, check, r) && (r is Ok <==> d is Run) && (r is Err
                        ==> d == Dispatch::Fail(r->Err_0))
            }
            &&& verb != "-h"@ && verb != "--help"@ && verb != "-V"@ && verb != "--version"@ && verb
                != "attach"@ && verb != "detach"@ && verb != "import"@ ==> d is Fail && d->Fail_0@
                == CarapaceErrorModel::Usage(
                "unknown verb "@ + debug_text(verb)
                    + " (expected `attach`, `detach`, `--help`, or `--version`)"@,
            )
        }),
{
    lemma_verbs();
    if args@.len() > 0 {
        let verb = args@[0]@;
        let rest = texts(args@).skip(1);
        assert(texts(args@)[0] == verb);
        if verb == "import"@ && in_pairs(rest, seq!["-i"@, "--image"@, "-o"@, "--out"@, "-t"@, "--tag"@]) {
            let r = choose|r: Result<Parsed<ImportArgs>, CarapaceError>|
                #[trigger] import_outcome(rest, r) && follows(
                    d,
                    r,
                    |t: ImportArgs| Command::Import(t),
                );
            lemma_import(rest, r);
        }
        if verb == "attach"@ && in_pairs(rest, seq!["-n"@, "--name"@, "-r"@, "--root"@]) {
            let r = choose|r: Result<Parsed<(String, String)>, CarapaceError>|
                #[trigger] attach_outcome(rest, check, r) && follows(
                    d,
                    r,
                    |t: (String, String)| Command::Attach { name: t.0, root: t.1 },
                );
            lemma_attach(rest, check, r);
            assert(attaches(rest, check, r));
        }
        if verb == "detach"@ && in_pairs(rest, seq!["-n"@, "--name"@]) {
            let r = choose|r: Result<Parsed<String>, CarapaceError>|
                #[trigger] detach_outcome(rest, check, r) && follows(
                    d,
                    r,
                    |t: String| Command::Detach { name: t },
                );
            lemma_detach(rest, check, r);
            assert(detaches(rest, check, r));
        }
    }
}

/// The verbs all differ.
proof fn lemma_verbs()
    ensures
        "-h"@.len() == 2 && "-h"@[1] == 'h',
        "-V"@.len() == 2 && "-V"@[1] == 'V',
        "--help"@.len() == 6 && "--help"@[0] == '-',
        "--version"@.len() == 9,
        "attach"@.len() == 6 && "attach"@[0] == 'a',
        "detach"@.len() == 6 && "detach"@[0] == 'd',
        "import"@.len() == 6 && "import"@[0] == 'i',
{
    reveal_strlit("-h");
    reveal_strlit("-V");
    reveal_strlit("--help");
    reveal_strlit("--version");
    reveal_strlit("attach");
    reveal_strlit("detach");
    reveal_strlit("import");
}

/// A run that succeeds exits with 0, one whose chain was rejected with 2, and any other
/// with 1.
pub proof fn law_exit_codes_tell_rejections_apart(error: Option<&CarapaceError>, r: u8)
    requires
        call_ensures(exit_code, (error,), r),
    ensures
        r == 0 <==> error is None,
        r == 2 <==> error is Some && *error->0 is Rejected,
        r <= 2,
{
}

/// A verb does what was made of its own arguments: it is carried out with them, or help is
/// shown, or their error is.
pub proof fn law_verbs_pass_on_what_was_parsed<F: Fn(&String) -> Result<(), CarapaceError>>(
    args: &[String],
    check: F,
    d: Dispatch,
)
    requires
        call_ensures(parse_and_dispatch::<F>, (args, check), d),
        args@.len() > 0,
    ensures
        args@[0]@ == "import"@ ==> exists|r: Result<Parsed<ImportArgs>, CarapaceError>|
            {
                &&& #[trigger] import_outcome(texts(args@).skip(1), r)
                &&& r is Err ==> d == Dispatch::Fail(r->Err_0)
                &&& r is Ok && r->Ok_0 is Help ==> d == Dispatch::Run(Command::Help)
                &&& r is Ok && r->Ok_0 is Args ==> d == Dispatch::Run(
                    Command::Import(r->Ok_0->Args_0),
                )
            },
        args@[0]@ == "attach"@ ==> exists|r: Result<Parsed<(String, String)>, CarapaceError>|
            {
                &&& #[trigger] attach_outcome(texts(args@).skip(1), check, r)
                &&& r is Err ==> d == Dispatch::Fail(r->Err_0)
                &&& r is Ok && r->Ok_0 is Help ==> d == Dispatch::Run(Command::Help)
                &&& r is Ok && r->Ok_0 is Args ==> d is Run && d->Run_0 is Attach
                    && d->Run_0->Attach_name == r->Ok_0->Args_0.0 && d->Run_0->root
                    == r->Ok_0->Args_0.1
            },
        args@[0]@ == "detach"@ ==> exists|r: Result<Parsed<String>, CarapaceError>|
            {
                &&& #[trigger] detach_outcome(texts(args@).skip(1), check, r)
                &&& r is Err ==> d == Dispatch::Fail(r->Err_0)
                &&& r is Ok && r->Ok_0 is Help ==> d == Dispatch::Run(Command::Help)
                &&& r is Ok && r->Ok_0 is Args ==> d is Run && d->Run_0 is Detach
                    && d->Run_0->Detach_name == r->Ok_0->Args_0
            },
{
    lemma_verbs();
    assert(texts(args@)[0] == args@[0]@);
}

/// A flag that a value follows has that value, and one that none follows is named.
pub proof fn law_missing_value_is_told(flag: &str, value: Option<String>, r: Result<
    String,
    CarapaceError,
>)
    requires
        call_ensures(value_for, (flag, value), r),
    ensures
        value is Some ==> r is Ok && r->Ok_0@ == value->0@,
        value is None ==> is_usage(r, flag@ + " requires a value"@),
{
}

} // verus!
