//! The command line: what is asked for, and what is shown.

use vstd::prelude::*;
use vstd::slice::slice_subrange;

use crate::config;
use crate::config::ResolverMode;
use crate::resolver;
use crate::resolver::TraceEntry;
use crate::text;
use crate::text::{
    chars_of, copy_str, push_int, push_text, same_str, starts_with_text, string_of,
};

verus! {

/// What the command line asks for.
#[derive(Debug)]
pub enum Invocation {
    /// Help.
    Usage,
    /// Start the daemon, in a mode of its own if one is given.
    Daemon(Option<ResolverMode>),
    /// A mode that does not exist.
    UnknownResolver(String),
    Status,
    Watch,
    Stop,
    Restart,
    /// Resolve without the daemon, and tell of each step if that is asked for.
    Resolve { debug: bool },
}

/// What the command line asks for, with its texts.
pub enum Asked {
    Usage,
    Daemon(Option<ResolverMode>),
    UnknownResolver(Seq<char>),
    Status,
    Watch,
    Stop,
    Restart,
    Resolve(bool),
}

impl View for Invocation {
    type V = Asked;

    open spec fn view(&self) -> Asked {
        match *self {
            Invocation::Usage => Asked::Usage,
            Invocation::Daemon(mode) => Asked::Daemon(mode),
            Invocation::UnknownResolver(name) => Asked::UnknownResolver(name@),
            Invocation::Status => Asked::Status,
            Invocation::Watch => Asked::Watch,
            Invocation::Stop => Asked::Stop,
            Invocation::Restart => Asked::Restart,
            Invocation::Resolve { debug } => Asked::Resolve(debug),
        }
    }
}

/// The mode that the options choose: that of the last option for it, unless an
/// earlier one names a mode that does not exist.
pub open spec fn chosen(opts: Seq<Seq<char>>) -> Result<Option<ResolverMode>, Seq<char>>
    decreases opts.len(),
{
    if opts.len() == 0 {
        Ok(None)
    } else {
        match chosen(opts.drop_last()) {
            Err(name) => Err(name),
            Ok(mode) => if "--resolver="@.is_prefix_of(opts.last()) {
                let name = opts.last().skip(11);
                match config::mode_named(name) {
                    Some(m) => Ok(Some(m)),
                    None => Err(name),
                }
            } else {
                Ok(mode)
            },
        }
    }
}

/// What the arguments ask for, the first of which is the program.
pub open spec fn asked(args: Seq<Seq<char>>) -> Asked {
    if args.len() < 2 {
        Asked::Usage
    } else if args[1] == "daemon"@ {
        match chosen(args.skip(2)) {
            Ok(mode) => Asked::Daemon(mode),
            Err(name) => Asked::UnknownResolver(name),
        }
    } else if args[1] == "status"@ {
        Asked::Status
    } else if args[1] == "watch"@ {
        Asked::Watch
    } else if args[1] == "stop"@ {
        Asked::Stop
    } else if args[1] == "restart"@ {
        Asked::Restart
    } else if args[1] == "resolve"@ {
        Asked::Resolve(args.contains("--debug"@))
    } else {
        Asked::Usage
    }
}

fn choose_mode(args: &Vec<String>) -> (r: Result<Option<ResolverMode>, String>)
    requires
        args@.len() >= 2,
    ensures
        chosen(text::texts(args@).skip(2)) == match r {
            Ok(mode) => Ok(mode),
            Err(name) => Err(name@),
        },
{
    let ghost opts = text::texts(args@).skip(2);
    let mut mode: Option<ResolverMode> = None;
    let mut i: usize = 2;
    proof {
        reveal_strlit("--resolver=");
        assert(opts.take(0) =~= Seq::<Seq<char>>::empty());
    }
    while i < args.len()
        invariant
            2 <= i <= args.len(),
            "--resolver="@.len() == 11,
            opts == text::texts(args@).skip(2),
            chosen(opts.take(i - 2)) == Ok::<Option<ResolverMode>, Seq<char>>(mode),
        decreases args.len() - i,
    {
        proof {
            assert(opts.take(i - 1).drop_last() =~= opts.take(i - 2));
            assert(opts.take(i - 1).last() == args@[i as int]@);
        }
        let chars = chars_of(args[i].as_str());
        if starts_with_text(chars.as_slice(), "--resolver=") {
            let tail = slice_subrange(chars.as_slice(), 11, chars.len());
            assert(tail@ =~= args@[i as int]@.skip(11));
            let name = string_of(tail);
            match ResolverMode::from_str(name.as_str()) {
                Some(m) => {
                    mode = Some(m);
                },
                None => {
                    proof {
                        lemma_chosen_stays(opts, i - 1);
                    }
                    return Err(name);
                },
            }
        }
        i += 1;
    }
    assert(opts.take(opts.len() as int) =~= opts);
    Ok(mode)
}

/// A mode that does not exist is not made up for by later options.
proof fn lemma_chosen_stays(opts: Seq<Seq<char>>, k: int)
    requires
        0 <= k <= opts.len(),
        chosen(opts.take(k)) is Err,
    ensures
        chosen(opts) == chosen(opts.take(k)),
    decreases opts.len() - k,
{
    if k < opts.len() {
        assert(opts.take(k + 1).drop_last() =~= opts.take(k));
        lemma_chosen_stays(opts, k + 1);
    } else {
        assert(opts.take(k) =~= opts);
    }
}

fn holds_debug(args: &Vec<String>) -> (r: bool)
    ensures
        r == text::texts(args@).contains("--debug"@),
{
    let ghost ts = text::texts(args@);
    let mut i: usize = 0;
    while i < args.len()
        invariant
            i <= args.len(),
            ts == text::texts(args@),
            forall|j: int| 0 <= j < i ==> ts[j] != "--debug"@,
        decreases args.len() - i,
    {
        assert(ts[i as int] == args@[i as int]@);
        if same_str(args[i].as_str(), "--debug") {
            return true;
        }
        i += 1;
    }
    false
}

/// Read the command line.
pub fn parse_args(args: &Vec<String>) -> (r: Invocation)
    ensures
        r@ == asked(text::texts(args@)),
{
    if args.len() < 2 {
        return Invocation::Usage;
    }
    assert(text::texts(args@)[1] == args@[1]@);
    let command = args[1].as_str();
    if same_str(command, "daemon") {
        match choose_mode(args) {
            Ok(mode) => Invocation::Daemon(mode),
            Err(name) => Invocation::UnknownResolver(name),
        }
    } else if same_str(command, "status") {
        Invocation::Status
    } else if same_str(command, "watch") {
        Invocation::Watch
    } else if same_str(command, "stop") {
        Invocation::Stop
    } else if same_str(command, "restart") {
        Invocation::Restart
    } else if same_str(command, "resolve") {
        Invocation::Resolve { debug: holds_debug(args) }
    } else {
        Invocation::Usage
    }
}

/// The name of the socket that a watching client binds.
pub fn consumer_name(socket_name: &str) -> (r: String)
    ensures
        r@ == socket_name@ + "_consumer"@,
{
    let mut out = chars_of(socket_name);
    push_text(&mut out, "_consumer");
    string_of(out.as_slice())
}

/// What a client does after a read.
#[derive(Debug, Clone, Copy, PartialEq, Eq, Structural)]
pub enum ClientStep {
    /// Wait for more.
    Wait,
    /// Show what was read, and wait for more.
    ShowAndWait,
    /// Show what was read, and end.
    ShowAndEnd,
    /// End.
    End,
}

/// What a client does after it read `got` bytes, or would have blocked. A watch
/// ends only when the daemon hangs up.
pub fn client_step(watch: bool, got: Option<usize>) -> (r: ClientStep)
    ensures
        r == (match got {
            None => ClientStep::Wait,
            Some(n) => if n == 0 {
                ClientStep::End
            } else if watch {
                ClientStep::ShowAndWait
            } else {
                ClientStep::ShowAndEnd
            },
        }),
{
    match got {
        None => ClientStep::Wait,
        Some(n) => {
            if n == 0 {
                ClientStep::End
            } else if watch {
                ClientStep::ShowAndWait
            } else {
                ClientStep::ShowAndEnd
            }
        },
    }
}

/// A step as it is shown: whether it passed, the process if it is of one, the
/// stage and the detail.
pub open spec fn shown_step(s: resolver::Step) -> Seq<char> {
    let mark = if s.pass {
        "\u{2713} "@
    } else {
        "\u{2717} "@
    };
    let pid = if s.pid != 0 {
        "["@ + text::dec_int(s.pid as int) + "] "@
    } else {
        Seq::<char>::empty()
    };
    mark + pid + s.stage + ": "@ + s.detail
}

/// Show a step.
pub fn trace_line(t: &TraceEntry) -> (r: String)
    ensures
        r@ == shown_step(t@),
{
    let mut out: Vec<char> = Vec::new();
    if t.pass {
        push_text(&mut out, "\u{2713} ");
    } else {
        push_text(&mut out, "\u{2717} ");
    }
    if t.pid != 0 {
        push_text(&mut out, "[");
        push_int(&mut out, t.pid);
        push_text(&mut out, "] ");
    }
    push_text(&mut out, t.stage);
    push_text(&mut out, ": ");
    push_text(&mut out, t.detail.as_str());
    assert(out@ =~= shown_step(t@));
    string_of(out.as_slice())
}

/// The result of a resolution without the daemon, as it is shown.
pub open spec fn shown_result(
    debug: bool,
    result: Option<(Seq<char>, bool, Seq<Seq<char>>)>,
) -> Seq<char> {
    match result {
        Some((package, is_app, _)) => if debug {
            "foreground: "@ + package + " (is_app="@ + resolver::bool_text(is_app) + ")"@
        } else {
            package
        },
        None => if debug {
            "foreground: unknown"@
        } else {
            "unknown"@
        },
    }
}

/// Show the result of a resolution without the daemon.
pub fn result_line(debug: bool, result: &Option<(String, bool, Vec<String>)>) -> (r: String)
    ensures
        r@ == shown_result(debug, resolver::found(*result)),
{
    match result {
        Some((package, is_app, _)) => {
            if !debug {
                return copy_str(package.as_str());
            }
            let mut out: Vec<char> = Vec::new();
            push_text(&mut out, "foreground: ");
            push_text(&mut out, package.as_str());
            push_text(&mut out, " (is_app=");
            push_text(
                &mut out,
                if *is_app {
                    "true"
                } else {
                    "false"
                },
            );
            push_text(&mut out, ")");
            assert(out@ =~= shown_result(debug, resolver::found(*result)));
            string_of(out.as_slice())
        },
        None => {
            if debug {
                copy_str("foreground: unknown")
            } else {
                copy_str("unknown")
            }
        },
    }
}

// ---------------------------------------------------------------------------
// Laws
// ---------------------------------------------------------------------------

/// The first argument after the program is the command.
pub proof fn law_commands(args: Seq<Seq<char>>)
    ensures
        args.len() < 2 ==> asked(args) is Usage,
        args.len() >= 2 && args[1] == "daemon"@ ==> asked(args) is Daemon || asked(
            args,
        ) is UnknownResolver,
        args.len() >= 2 && args[1] == "status"@ ==> asked(args) is Status,
        args.len() >= 2 && args[1] == "watch"@ ==> asked(args) is Watch,
        args.len() >= 2 && args[1] == "stop"@ ==> asked(args) is Stop,
        args.len() >= 2 && args[1] == "restart"@ ==> asked(args) is Restart,
        args.len() >= 2 && args[1] == "resolve"@ ==> asked(args) == Asked::Resolve(
            args.contains("--debug"@),
        ),
        args.len() >= 2 && args[1] != "daemon"@ && args[1] != "status"@ && args[1] != "watch"@
            && args[1] != "stop"@ && args[1] != "restart"@ && args[1] != "resolve"@ ==> asked(
            args,
        ) is Usage,
{
    reveal_strlit("daemon");
    reveal_strlit("status");
    reveal_strlit("watch");
    reveal_strlit("stop");
    reveal_strlit("restart");
    reveal_strlit("resolve");
    assert("daemon"@[0] == 'd' && "status"@[0] == 's' && "watch"@[0] == 'w' && "stop"@[0] == 's'
        && "restart"@[0] == 'r' && "resolve"@[0] == 'r');
    assert("status"@.len() == 6 && "stop"@.len() == 4);
    assert("restart"@[3] == 't' && "resolve"@[3] == 'o');
}

/// The last resolver that the daemon is asked to use is used, options of another
/// sort change nothing, and the first that does not exist is told.
pub proof fn law_resolver_option(
    program: Seq<char>,
    opts: Seq<Seq<char>>,
    more: Seq<Seq<char>>,
    name: Seq<char>,
)
    requires
        forall|i: int| 0 <= i < more.len() ==> !"--resolver="@.is_prefix_of(#[trigger] more[i]),
    ensures
        ({
            let before = seq![program, "daemon"@] + opts;
            let option = "--resolver="@ + name;
            &&& asked(seq![program, "daemon"@] + more) == Asked::Daemon(None)
            &&& asked(before + more) == asked(before)
            &&& asked(before) is Daemon ==> asked(before.push(option) + more) == if name
                == "auto"@ {
                Asked::Daemon(Some(ResolverMode::Auto))
            } else if name == "binder"@ {
                Asked::Daemon(Some(ResolverMode::Binder))
            } else if name == "cgroup"@ {
                Asked::Daemon(Some(ResolverMode::Cgroup))
            } else {
                Asked::UnknownResolver(name)
            }
            &&& asked(before) is UnknownResolver ==> asked(before.push(option) + more) == asked(
                before,
            )
        }),
{
    let start = seq![program, "daemon"@];
    let before = start + opts;
    let option = "--resolver="@ + name;
    reveal_strlit("--resolver=");
    lemma_other_options(Seq::empty(), more);
    lemma_other_options(opts, more);
    lemma_other_options(opts.push(option), more);
    assert((start + more).skip(2) =~= Seq::<Seq<char>>::empty() + more);
    assert(before.skip(2) =~= opts);
    assert((before + more).skip(2) =~= opts + more);
    assert((before.push(option) + more).skip(2) =~= opts.push(option) + more);
    assert((start + more)[1] == "daemon"@ && before[1] == "daemon"@);
    assert((before + more)[1] == "daemon"@ && (before.push(option) + more)[1] == "daemon"@);
    assert(opts.push(option).drop_last() =~= opts);
    assert("--resolver="@.is_prefix_of(option)) by {
        assert(option.take(11) =~= "--resolver="@);
    }
    assert(option.skip(11) =~= name);
    config::law_modes(name);
}

proof fn lemma_other_options(opts: Seq<Seq<char>>, more: Seq<Seq<char>>)
    requires
        forall|i: int| 0 <= i < more.len() ==> !"--resolver="@.is_prefix_of(#[trigger] more[i]),
    ensures
        chosen(opts + more) == chosen(opts),
    decreases more.len(),
{
    if more.len() == 0 {
        assert(opts + more =~= opts);
    } else {
        lemma_other_options(opts, more.drop_last());
        assert((opts + more).drop_last() =~= opts + more.drop_last());
        assert((opts + more).last() == more[more.len() - 1]);
    }
}

/// What is shown of a step holds its mark, its process if it has one, its stage and
/// its detail; what is shown of the result is the package, or that it is unknown.
pub proof fn law_shown(s: resolver::Step, package: Seq<char>, others: Seq<Seq<char>>)
    ensures
        s.pid == 0 && s.pass ==> shown_step(s) == "\u{2713} "@ + s.stage + ": "@ + s.detail,
        s.pid == 0 && !s.pass ==> shown_step(s) == "\u{2717} "@ + s.stage + ": "@ + s.detail,
        s.pid != 0 && s.pass ==> shown_step(s) == "\u{2713} ["@ + text::dec_int(s.pid as int)
            + "] "@ + s.stage + ": "@ + s.detail,
        s.pid != 0 && !s.pass ==> shown_step(s) == "\u{2717} ["@ + text::dec_int(s.pid as int)
            + "] "@ + s.stage + ": "@ + s.detail,
        forall|is_app: bool| #[trigger]
            shown_result(false, Some((package, is_app, others))) == package,
        shown_result(true, Some((package, true, others))) == "foreground: "@ + package
            + " (is_app=true)"@,
        shown_result(true, Some((package, false, others))) == "foreground: "@ + package
            + " (is_app=false)"@,
        shown_result(false, None) == "unknown"@,
        shown_result(true, None) == "foreground: unknown"@,
{
    reveal_strlit("\u{2713} ");
    reveal_strlit("\u{2717} ");
    reveal_strlit("\u{2713} [");
    reveal_strlit("\u{2717} [");
    reveal_strlit("[");
    reveal_strlit(" (is_app=");
    reveal_strlit("true");
    reveal_strlit("false");
    reveal_strlit(")");
    reveal_strlit(" (is_app=true)");
    reveal_strlit(" (is_app=false)");
    let none = Seq::<char>::empty();
    assert("\u{2713} "@ + none =~= "\u{2713} "@);
    assert("\u{2717} "@ + none =~= "\u{2717} "@);
    let n = text::dec_int(s.pid as int);
    assert("\u{2713} "@ + ("["@ + n + "] "@) =~= "\u{2713} ["@ + n + "] "@);
    assert("\u{2717} "@ + ("["@ + n + "] "@) =~= "\u{2717} ["@ + n + "] "@);
    assert("foreground: "@ + package + " (is_app="@ + "true"@ + ")"@ =~= "foreground: "@ + package
        + " (is_app=true)"@);
    assert("foreground: "@ + package + " (is_app="@ + "false"@ + ")"@ =~= "foreground: "@ + package
        + " (is_app=false)"@);
}

} // verus!
