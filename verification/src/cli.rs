//! Command line surface. Parsing runs before the eBPF is loaded, so `--help`
//! and `--version` answer without privileges.

use vstd::prelude::*;

use crate::text;
use crate::text::same;
use crate::ui::theme::Background;

verus! {

pub const USAGE: &'static str = "\
usage: truetop [--background <NAME>] [--max-processes <N>] [--bench <TICKS>]
               [-h|--help] [-V|--version]

      --background <NAME>  the terminal's background: auto (the default), dark
                           or light. auto asks the terminal
      --max-processes <N>  processes the accounting maps hold; the default is
                           derived from the CPU count, since a per-CPU map costs
                           8 bytes per entry per CPU and is allocated at load
      --bench <TICKS>      run TICKS collector ticks headless, without the UI
  -h, --help               print this help
  -V, --version            print the version";

pub const VERSION: &'static str = "truetop 0.1.0";

/// What the command line asks for.
#[derive(Debug)]
pub struct Args {
    pub command: Command,
    /// `None` asks the terminal; see `ui::theme::detect::resolve`.
    pub background: Option<Background>,
    /// `None` leaves the size to the machine; see `load::default_max_processes`.
    pub max_processes: Option<u32>,
}

#[derive(Debug)]
pub enum Command {
    Ui,
    Bench(u32),
    /// Text to print before exiting successfully.
    Print(String),
}

/// How an argument was turned down.
#[derive(Clone, Copy, Debug, PartialEq, Eq, Structural)]
pub enum Problem {
    /// `--bench` came last.
    BenchNeedsTicks,
    /// `--bench` was followed by something else than a number.
    NotTicks,
    /// `--background` came last.
    BackgroundNeedsName,
    /// `--background` was followed by an unknown name.
    NotBackground,
    /// `--max-processes` came last.
    MaxNeedsCount,
    /// `--max-processes` was followed by something else than a positive number.
    NotCount,
    /// No argument of that name.
    Unknown,
}

/// An argument that was turned down, and the text that was to blame: empty where
/// one is missing.
#[derive(Debug)]
pub struct CliError {
    pub problem: Problem,
    pub value: String,
}

impl View for CliError {
    type V = (Problem, Seq<char>);

    open spec fn view(&self) -> (Problem, Seq<char>) {
        (self.problem, self.value@)
    }
}

impl CliError {
    /// The message for the operator.
    pub open spec fn text(self) -> Seq<char> {
        match self.problem {
            Problem::BenchNeedsTicks => "--bench needs a tick count"@,
            Problem::NotTicks => "--bench: `"@ + self.value@ + "` is not a tick count"@,
            Problem::BackgroundNeedsName => "--background needs a name"@,
            Problem::NotBackground => "--background: `"@ + self.value@
                + "` is not auto, dark or light"@,
            Problem::MaxNeedsCount => "--max-processes needs a count"@,
            Problem::NotCount => "--max-processes: `"@ + self.value@ + "` is not a count"@,
            Problem::Unknown => "unknown argument `"@ + self.value@ + "`\n\n"@ + USAGE@,
        }
    }

    /// The message for the operator.
    pub fn message(&self) -> (out: String)
        ensures
            out@ == self.text(),
    {
        let (before, after) = match self.problem {
            Problem::BenchNeedsTicks => return "--bench needs a tick count".to_owned(),
            Problem::BackgroundNeedsName => return "--background needs a name".to_owned(),
            Problem::MaxNeedsCount => return "--max-processes needs a count".to_owned(),
            Problem::NotTicks => ("--bench: `", "` is not a tick count"),
            Problem::NotBackground => ("--background: `", "` is not auto, dark or light"),
            Problem::NotCount => ("--max-processes: `", "` is not a count"),
            Problem::Unknown => ("unknown argument `", "`\n\n"),
        };
        let mut out = before.to_owned();
        out.append(self.value.as_str());
        out.append(after);
        if self.problem == Problem::Unknown {
            out.append(USAGE);
        }
        out
    }

    /// What lies underneath: for a tick count that is none, why it is no number.
    pub open spec fn reason(self) -> Option<text::NumberFault> {
        match self.problem {
            Problem::NotTicks => text::fault(self.value@, u32::MAX as nat),
            _ => None,
        }
    }

    /// What lies underneath: for a tick count that is none, why it is no number.
    pub fn cause(&self) -> (out: Option<&'static str>)
        ensures
            out is Some == self.reason() is Some,
            out matches Some(cause) ==> cause@ == self.reason()->0.text(),
    {
        match self.problem {
            Problem::NotTicks => match text::number_fault(
                &text::to_chars(self.value.as_str()),
                u32::MAX as u64,
            ) {
                Some(fault) => Some(fault.message()),
                None => None,
            },
            _ => None,
        }
    }
}

// ── The grammar ──────────────────────────────────────────────────────────────

/// [`Command`] over a mathematical text.
pub ghost enum Asked {
    Ui,
    Bench(nat),
    Print(Seq<char>),
}

/// [`Args`] over mathematical values.
pub ghost struct Request {
    pub command: Asked,
    pub background: Option<Background>,
    pub max_processes: Option<nat>,
}

impl View for Command {
    type V = Asked;

    open spec fn view(&self) -> Asked {
        match self {
            Command::Ui => Asked::Ui,
            Command::Bench(ticks) => Asked::Bench(*ticks as nat),
            Command::Print(text) => Asked::Print(text@),
        }
    }
}

impl View for Args {
    type V = Request;

    open spec fn view(&self) -> Request {
        Request {
            command: self.command@,
            background: self.background,
            max_processes: match self.max_processes {
                Some(n) => Some(n as nat),
                None => None,
            },
        }
    }
}

/// What no arguments ask for.
pub open spec fn nothing_asked() -> Request {
    Request { command: Asked::Ui, background: None, max_processes: None }
}

/// The background a name stands for; `auto` leaves it to the terminal.
pub open spec fn named_background(name: Seq<char>) -> Option<Option<Background>> {
    if name == "auto"@ {
        Some(None)
    } else if name == "dark"@ {
        Some(Some(Background::Dark))
    } else if name == "light"@ {
        Some(Some(Background::Light))
    } else {
        None
    }
}

/// What `args` ask for on top of `asked`: read in order, a later one overriding
/// an earlier, up to the first that asks for a text or is turned down.
pub open spec fn asked_for(args: Seq<Seq<char>>, asked: Request) -> Result<
    Request,
    (Problem, Seq<char>),
>
    decreases args.len(),
{
    if args.len() == 0 {
        Ok(asked)
    } else {
        let arg = args[0];
        let rest = args.drop_first();
        if arg == "-h"@ || arg == "--help"@ {
            Ok(Request { command: Asked::Print(USAGE@), ..asked })
        } else if arg == "-V"@ || arg == "--version"@ {
            Ok(Request { command: Asked::Print(VERSION@), ..asked })
        } else if arg == "--bench"@ {
            if rest.len() == 0 {
                Err((Problem::BenchNeedsTicks, seq![]))
            } else {
                match text::parsed(rest[0], u32::MAX as nat) {
                    Some(ticks) => asked_for(
                        rest.drop_first(),
                        Request { command: Asked::Bench(ticks), ..asked },
                    ),
                    None => Err((Problem::NotTicks, rest[0])),
                }
            }
        } else if arg == "--background"@ {
            if rest.len() == 0 {
                Err((Problem::BackgroundNeedsName, seq![]))
            } else {
                match named_background(rest[0]) {
                    Some(background) => asked_for(
                        rest.drop_first(),
                        Request { background, ..asked },
                    ),
                    None => Err((Problem::NotBackground, rest[0])),
                }
            }
        } else if arg == "--max-processes"@ {
            if rest.len() == 0 {
                Err((Problem::MaxNeedsCount, seq![]))
            } else {
                match text::parsed(rest[0], u32::MAX as nat) {
                    Some(n) if n > 0 => asked_for(
                        rest.drop_first(),
                        Request { max_processes: Some(n), ..asked },
                    ),
                    _ => Err((Problem::NotCount, rest[0])),
                }
            }
        } else {
            Err((Problem::Unknown, arg))
        }
    }
}

/// The texts of `args`.
pub open spec fn texts(args: Seq<String>) -> Seq<Seq<char>> {
    args.map_values(|arg: String| arg@)
}

// ── Laws ─────────────────────────────────────────────────────────────────────

/// Arguments are read from left to right: once `a` has been accepted, `b` adds to
/// what it asked for. Where `a` asked for a text, that text is the answer
/// whatever follows.
pub proof fn later_arguments_add(a: Seq<Seq<char>>, b: Seq<Seq<char>>, asked: Request)
    requires
        !(asked.command is Print),
        asked_for(a, asked) is Ok,
    ensures
        asked_for(a + b, asked) == {
            let so_far = asked_for(a, asked)->Ok_0;
            if so_far.command is Print {
                Ok(so_far)
            } else {
                asked_for(b, so_far)
            }
        },
    decreases a.len(),
{
    if a.len() == 0 {
        assert(a + b == b);
    } else {
        let all = a + b;
        assert(all[0] == a[0]);
        assert(all.drop_first() == a.drop_first() + b);
        let rest = a.drop_first();
        if rest.len() > 0 {
            assert(all.drop_first()[0] == rest[0]);
            assert(all.drop_first().drop_first() == rest.drop_first() + b);
            if let Some(ticks) = text::parsed(rest[0], u32::MAX as nat) {
                let bench = Request { command: Asked::Bench(ticks), ..asked };
                if asked_for(rest.drop_first(), bench) is Ok {
                    later_arguments_add(rest.drop_first(), b, bench);
                }
                let sized = Request { max_processes: Some(ticks), ..asked };
                if asked_for(rest.drop_first(), sized) is Ok {
                    later_arguments_add(rest.drop_first(), b, sized);
                }
            }
            if let Some(background) = named_background(rest[0]) {
                let tinted = Request { background, ..asked };
                if asked_for(rest.drop_first(), tinted) is Ok {
                    later_arguments_add(rest.drop_first(), b, tinted);
                }
            }
        }
    }
}

/// Each option sets what it is named after, to what follows it, and leaves the rest as
/// it was: reading goes on behind it.
pub proof fn an_option_sets_its_own(n: u32, rest: Seq<Seq<char>>, asked: Request)
    ensures
        asked_for(seq!["--bench"@, text::decimal(n as nat)] + rest, asked) == asked_for(
            rest,
            Request {
                command: Asked::Bench(n as nat),
                background: asked.background,
                max_processes: asked.max_processes,
            },
        ),
        n > 0 ==> asked_for(seq!["--max-processes"@, text::decimal(n as nat)] + rest, asked)
            == asked_for(
            rest,
            Request {
                command: asked.command,
                background: asked.background,
                max_processes: Some(n as nat),
            },
        ),
        asked_for(seq!["--background"@, "dark"@] + rest, asked) == asked_for(
            rest,
            Request {
                command: asked.command,
                background: Some(Background::Dark),
                max_processes: asked.max_processes,
            },
        ),
        asked_for(seq!["--background"@, "light"@] + rest, asked) == asked_for(
            rest,
            Request {
                command: asked.command,
                background: Some(Background::Light),
                max_processes: asked.max_processes,
            },
        ),
        asked_for(seq!["--background"@, "auto"@] + rest, asked) == asked_for(
            rest,
            Request {
                command: asked.command,
                background: None,
                max_processes: asked.max_processes,
            },
        ),
        asked_for(Seq::empty(), asked) == Ok::<_, (Problem, Seq<char>)>(asked),
{
    lemma_options_differ();
    text::decimal_reads_back(n as nat, u32::MAX as nat);
    lemma_two("--bench"@, text::decimal(n as nat), rest);
    lemma_two("--max-processes"@, text::decimal(n as nat), rest);
    lemma_two("--background"@, "dark"@, rest);
    lemma_two("--background"@, "light"@, rest);
    lemma_two("--background"@, "auto"@, rest);
}

proof fn lemma_two(a: Seq<char>, b: Seq<char>, rest: Seq<Seq<char>>)
    ensures
        ({
            let all = seq![a, b] + rest;
            &&& all.len() == rest.len() + 2
            &&& all[0] == a
            &&& all.drop_first()[0] == b
            &&& all.drop_first().drop_first() == rest
        }),
{
    let all = seq![a, b] + rest;
    assert(all.drop_first().drop_first() =~= rest);
}

/// The options, and the names of the backgrounds, are told apart.
proof fn lemma_options_differ()
    ensures
        "--bench"@ != "-h"@ && "--bench"@ != "--help"@ && "--bench"@ != "-V"@ && "--bench"@
            != "--version"@,
        "--background"@ != "-h"@ && "--background"@ != "--help"@ && "--background"@ != "-V"@
            && "--background"@ != "--version"@ && "--background"@ != "--bench"@,
        "--max-processes"@ != "-h"@ && "--max-processes"@ != "--help"@ && "--max-processes"@
            != "-V"@ && "--max-processes"@ != "--version"@ && "--max-processes"@ != "--bench"@
            && "--max-processes"@ != "--background"@,
        "--version"@ != "-h"@ && "--version"@ != "--help"@ && "-V"@ != "-h"@ && "-V"@ != "--help"@,
        "dark"@ != "auto"@ && "light"@ != "auto"@ && "light"@ != "dark"@,
{
    reveal_strlit("-h");
    reveal_strlit("--help");
    reveal_strlit("-V");
    reveal_strlit("--version");
    reveal_strlit("--bench");
    reveal_strlit("--background");
    reveal_strlit("--max-processes");
    reveal_strlit("auto");
    reveal_strlit("dark");
    reveal_strlit("light");
    assert("--bench"@[2] == 'b' && "--help"@[2] == 'h' && "--version"@[2] == 'v');
    assert("--background"@.len() == 12 && "--bench"@.len() == 7);
    assert("--max-processes"@.len() == 15 && "--version"@.len() == 9);
    assert("-V"@[1] == 'V' && "-h"@[1] == 'h');
    assert("auto"@[0] == 'a' && "dark"@[0] == 'd' && "light"@[0] == 'l');
}

/// Help and version answer at once, in either spelling, whatever stands behind them.
pub proof fn help_and_version_answer_at_once(rest: Seq<Seq<char>>, asked: Request)
    ensures
        ({
            let help = Ok::<_, (Problem, Seq<char>)>(
                Request {
                    command: Asked::Print(USAGE@),
                    background: asked.background,
                    max_processes: asked.max_processes,
                },
            );
            let version = Ok::<_, (Problem, Seq<char>)>(
                Request {
                    command: Asked::Print(VERSION@),
                    background: asked.background,
                    max_processes: asked.max_processes,
                },
            );
            &&& asked_for(seq!["-h"@] + rest, asked) == help
            &&& asked_for(seq!["--help"@] + rest, asked) == help
            &&& asked_for(seq!["-V"@] + rest, asked) == version
            &&& asked_for(seq!["--version"@] + rest, asked) == version
        }),
{
    lemma_options_differ();
    assert((seq!["-h"@] + rest)[0] == "-h"@);
    assert((seq!["--help"@] + rest)[0] == "--help"@);
    assert((seq!["-V"@] + rest)[0] == "-V"@);
    assert((seq!["--version"@] + rest)[0] == "--version"@);
}

/// An option without its value is turned down, as is a value that is none: a count of
/// zero, a text that is no number, a name that is no background. So is anything else,
/// and the text to blame is handed back.
pub proof fn what_cannot_be_read_is_turned_down(
    value: Seq<char>,
    rest: Seq<Seq<char>>,
    asked: Request,
)
    ensures
        asked_for(seq!["--bench"@], asked) == Err::<Request, _>(
            (Problem::BenchNeedsTicks, Seq::<char>::empty()),
        ),
        asked_for(seq!["--background"@], asked) == Err::<Request, _>(
            (Problem::BackgroundNeedsName, Seq::<char>::empty()),
        ),
        asked_for(seq!["--max-processes"@], asked) == Err::<Request, _>(
            (Problem::MaxNeedsCount, Seq::<char>::empty()),
        ),
        text::parsed(value, u32::MAX as nat) is None ==> asked_for(
            seq!["--bench"@, value] + rest,
            asked,
        ) == Err::<Request, _>((Problem::NotTicks, value)),
        text::parsed(value, u32::MAX as nat) is None || text::parsed(value, u32::MAX as nat) == Some(
            0nat,
        ) ==> asked_for(seq!["--max-processes"@, value] + rest, asked) == Err::<Request, _>(
            (Problem::NotCount, value),
        ),
        value != "auto"@ && value != "dark"@ && value != "light"@ ==> asked_for(
            seq!["--background"@, value] + rest,
            asked,
        ) == Err::<Request, _>((Problem::NotBackground, value)),
        value != "-h"@ && value != "--help"@ && value != "-V"@ && value != "--version"@ && value
            != "--bench"@ && value != "--background"@ && value != "--max-processes"@ ==> asked_for(
            seq![value] + rest,
            asked,
        ) == Err::<Request, _>((Problem::Unknown, value)),
{
    lemma_options_differ();
    lemma_two("--bench"@, value, rest);
    lemma_two("--max-processes"@, value, rest);
    lemma_two("--background"@, value, rest);
    assert((seq![value] + rest)[0] == value);
    assert(seq!["--bench"@].drop_first().len() == 0);
    assert(seq!["--background"@].drop_first().len() == 0);
    assert(seq!["--max-processes"@].drop_first().len() == 0);
}

/// Without arguments the view is asked for, with everything left to the machine.
pub proof fn nothing_asks_for_the_view()
    ensures
        asked_for(Seq::empty(), nothing_asked()) == Ok::<_, (Problem, Seq<char>)>(
            Request { command: Asked::Ui, background: None, max_processes: None },
        ),
{
}

/// The message names the option, and the text that was to blame.
pub proof fn the_message_names_who_is_to_blame(error: CliError)
    ensures
        error.problem == Problem::NotTicks || error.problem == Problem::NotBackground
            || error.problem == Problem::NotCount || error.problem == Problem::Unknown
            ==> text::occurs(error.text(), error.value@),
        error.problem == Problem::BenchNeedsTicks || error.problem == Problem::NotTicks
            ==> text::begins(error.text(), "--bench"@),
        error.problem == Problem::BackgroundNeedsName || error.problem == Problem::NotBackground
            ==> text::begins(error.text(), "--background"@),
        error.problem == Problem::MaxNeedsCount || error.problem == Problem::NotCount
            ==> text::begins(error.text(), "--max-processes"@),
        error.problem == Problem::Unknown ==> text::occurs(error.text(), USAGE@),
{
    let value = error.value@;
    text::what_is_put_in_is_found("--bench: `"@, value, "` is not a tick count"@);
    text::what_is_put_in_is_found("--background: `"@, value, "` is not auto, dark or light"@);
    text::what_is_put_in_is_found("--max-processes: `"@, value, "` is not a count"@);
    text::what_is_put_in_is_found("unknown argument `"@, value, "`\n\n"@ + USAGE@);
    assert("unknown argument `"@ + value + ("`\n\n"@ + USAGE@) =~= "unknown argument `"@ + value
        + "`\n\n"@ + USAGE@);
    let none = Seq::<char>::empty();
    text::what_is_put_in_is_found("unknown argument `"@ + value + "`\n\n"@, USAGE@, none);
    assert("unknown argument `"@ + value + "`\n\n"@ + USAGE@ + none =~= "unknown argument `"@ + value
        + "`\n\n"@ + USAGE@);
    reveal_strlit("--bench");
    reveal_strlit("--bench: `");
    reveal_strlit("--bench needs a tick count");
    reveal_strlit("--background");
    reveal_strlit("--background: `");
    reveal_strlit("--background needs a name");
    reveal_strlit("--max-processes");
    reveal_strlit("--max-processes: `");
    reveal_strlit("--max-processes needs a count");
    assert("--bench needs a tick count"@.take(7) =~= "--bench"@);
    assert(("--bench: `"@ + value + "` is not a tick count"@).take(7) =~= "--bench"@);
    assert("--background needs a name"@.take(12) =~= "--background"@);
    assert(("--background: `"@ + value + "` is not auto, dark or light"@).take(12)
        =~= "--background"@);
    assert("--max-processes needs a count"@.take(15) =~= "--max-processes"@);
    assert(("--max-processes: `"@ + value + "` is not a count"@).take(15) =~= "--max-processes"@);
}

/// Only a tick count that is none has a reason underneath, and it is why it is no
/// number.
pub proof fn only_a_bad_tick_count_has_a_reason(error: CliError)
    ensures
        error.problem != Problem::NotTicks ==> error.reason() is None,
        error.problem == Problem::NotTicks && text::parsed(error.value@, u32::MAX as nat) is None
            ==> error.reason() is Some && error.reason() == text::fault(
            error.value@,
            u32::MAX as nat,
        ),
{
}

// ── The parser ───────────────────────────────────────────────────────────────

/// What `args`, without the program's own name, ask for.
pub fn parse(args: &Vec<String>) -> (out: Result<Args, CliError>)
    ensures
        match asked_for(texts(args@), nothing_asked()) {
            Ok(asked) => out matches Ok(parsed) && parsed@ == asked,
            Err(e) => out matches Err(error) && error@ == e,
        },
        out matches Err(error) ==> error.reason() is Some == (error.problem == Problem::NotTicks),
{
    let mut parsed = Args { command: Command::Ui, background: None, max_processes: None };
    let mut i: usize = 0;
    let ghost all = texts(args@);
    assert(all.skip(0) == all);
    while i < args.len()
        invariant
            i <= args.len(),
            all == texts(args@),
            asked_for(all, nothing_asked()) == asked_for(all.skip(i as int), parsed@),
        decreases args.len() - i,
    {
        let arg = args[i].as_str();
        let ghost here = all.skip(i as int);
        assert(here[0] == arg@);
        assert(here.drop_first() == all.skip(i + 1));
        if same(arg, "-h") || same(arg, "--help") {
            parsed.command = Command::Print(USAGE.to_owned());
            return Ok(parsed);
        }
        if same(arg, "-V") || same(arg, "--version") {
            parsed.command = Command::Print(VERSION.to_owned());
            return Ok(parsed);
        }
        let wanted = if same(arg, "--bench") {
            Problem::BenchNeedsTicks
        } else if same(arg, "--background") {
            Problem::BackgroundNeedsName
        } else if same(arg, "--max-processes") {
            Problem::MaxNeedsCount
        } else {
            return Err(CliError { problem: Problem::Unknown, value: arg.to_owned() });
        };
        if i + 1 == args.len() {
            let value = String::new();
            assert(value@ == Seq::<char>::empty());
            return Err(CliError { problem: wanted, value });
        }
        let value = args[i + 1].as_str();
        assert(here.drop_first()[0] == value@);
        assert(here.drop_first().drop_first() == all.skip(i + 2));
        match wanted {
            Problem::BenchNeedsTicks => {
                match text::parse_number(&text::to_chars(value), u32::MAX as u64) {
                    Some(ticks) => parsed.command = Command::Bench(ticks as u32),
                    None => return Err(
                        CliError { problem: Problem::NotTicks, value: value.to_owned() },
                    ),
                }
            },
            Problem::BackgroundNeedsName => {
                parsed.background =
                if same(value, "auto") {
                    None
                } else if same(value, "dark") {
                    Some(Background::Dark)
                } else if same(value, "light") {
                    Some(Background::Light)
                } else {
                    return Err(
                        CliError { problem: Problem::NotBackground, value: value.to_owned() },
                    );
                };
            },
            _ => {
                match text::parse_number(&text::to_chars(value), u32::MAX as u64) {
                    Some(n) if n > 0 => parsed.max_processes = Some(n as u32),
                    _ => return Err(
                        CliError { problem: Problem::NotCount, value: value.to_owned() },
                    ),
                }
            },
        }
        i += 2;
    }
    Ok(parsed)
}

} // verus!
