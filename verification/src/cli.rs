//! Command-line parsing and the shell binding text. Everything here works
//! on plain strings; reading the environment, the store file and printing
//! stay in the binary.

use vstd::prelude::*;

use crate::keyspec::{debug_quoted, debug_str, readline_of, readline_seq, KeySpec};
use crate::text::{cat2, cat3, eq_str, owned, views};

verus! {

/// The usage text printed for `-h` / `--help`.
pub const USAGE: &'static str = "xconsoler \u{2014} long-bar keyboard launcher (alt+d to wake)

USAGE:
    xconsoler [OPTIONS]

OPTIONS:
    --summon              shell-keybind mode: starts shown, wake key / Esc quits
    --wake-key <spec>     wake key for this run only (e.g. alt+d, ctrl+g);
                          also feeds --print-bind; not persisted
    --set-wake-key <spec> save the wake key to the store, print a reminder to
                          re-generate the shell binding, then exit (no TUI)
    --command-key <spec>  command-palette key for this run only
                          (default: the wake key); not persisted
    --set-command-key <spec>
                          save the command-palette key to the store
                          (default: the wake key), then exit (no TUI)
    --print-bind          print the shell binding line for the wake key, exit
    --print-rows          print the desktop bar height in rows for the store,
                          exit (used by scripts/xc-bar)
    --print-app <name>    resolve <name> against the installed applications and
                          print the match (label, source, exec), exit; nothing
                          is launched and no TUI starts
    --shell <bash|zsh>    shell flavour for --print-bind (default: bash)
    --store <path>        store.json location (default: $HOME/xconsoler/store.json)
    -h, --help            show this help";

/// Parsed command line (plain data).
#[derive(Debug)]
pub struct Cli {
    pub store: String,
    pub summon: bool,
    pub wake_key: Option<String>,
    pub set_wake_key: Option<String>,
    pub command_key: Option<String>,
    pub set_command_key: Option<String>,
    pub print_bind: bool,
    pub print_rows: bool,
    pub print_app: Option<String>,
    pub shell: String,
}

/// A command line as plain values.
pub struct CliModel {
    pub store: Seq<char>,
    pub summon: bool,
    pub wake_key: Option<Seq<char>>,
    pub set_wake_key: Option<Seq<char>>,
    pub command_key: Option<Seq<char>>,
    pub set_command_key: Option<Seq<char>>,
    pub print_bind: bool,
    pub print_rows: bool,
    pub print_app: Option<Seq<char>>,
    pub shell: Seq<char>,
}

/// The text of an optional string.
pub open spec fn text_of(o: Option<String>) -> Option<Seq<char>> {
    match o {
        Some(s) => Some(s@),
        None => None,
    }
}

impl View for Cli {
    type V = CliModel;

    open spec fn view(&self) -> CliModel {
        CliModel {
            store: self.store@,
            summon: self.summon,
            wake_key: text_of(self.wake_key),
            set_wake_key: text_of(self.set_wake_key),
            command_key: text_of(self.command_key),
            set_command_key: text_of(self.set_command_key),
            print_bind: self.print_bind,
            print_rows: self.print_rows,
            print_app: text_of(self.print_app),
            shell: self.shell@,
        }
    }
}

/// The command line before any argument: the default store, `bash`.
pub open spec fn initial(store: Seq<char>) -> CliModel {
    CliModel {
        store,
        summon: false,
        wake_key: None,
        set_wake_key: None,
        command_key: None,
        set_command_key: None,
        print_bind: false,
        print_rows: false,
        print_app: None,
        shell: "bash"@,
    }
}

/// The value after the flag at `i`, or the error naming the flag.
pub open spec fn value_at(args: Seq<Seq<char>>, i: int, flag: Seq<char>) -> Result<Seq<char>, Seq<char>> {
    if 0 <= i && i + 1 < args.len() {
        Ok(args[i + 1])
    } else {
        Err(flag + " requires a value"@)
    }
}

/// The error for a shell other than bash or zsh.
pub open spec fn unsupported_shell(shell: Seq<char>) -> Seq<char> {
    "unsupported shell "@ + debug_quoted(shell) + " (use \"bash\" or \"zsh\")"@
}

/// `c` with the value `v` of flag `a` recorded; a `--shell` other than
/// bash or zsh is refused.
pub open spec fn with_value(c: CliModel, a: Seq<char>, v: Seq<char>) -> Result<CliModel, Seq<char>> {
    if a == "--store"@ {
        Ok(CliModel { store: v, ..c })
    } else if a == "--wake-key"@ {
        Ok(CliModel { wake_key: Some(v), ..c })
    } else if a == "--set-wake-key"@ {
        Ok(CliModel { set_wake_key: Some(v), ..c })
    } else if a == "--command-key"@ {
        Ok(CliModel { command_key: Some(v), ..c })
    } else if a == "--set-command-key"@ {
        Ok(CliModel { set_command_key: Some(v), ..c })
    } else if a == "--print-app"@ {
        Ok(CliModel { print_app: Some(v), ..c })
    } else if v != "bash"@ && v != "zsh"@ {
        Err(unsupported_shell(v))
    } else {
        Ok(CliModel { shell: v, ..c })
    }
}

/// Flags that take the next argument as their value.
pub open spec fn takes_value(a: Seq<char>) -> bool {
    a == "--store"@ || a == "--wake-key"@ || a == "--set-wake-key"@ || a == "--command-key"@
        || a == "--set-command-key"@ || a == "--print-app"@ || a == "--shell"@
}

/// The command line `c` after the arguments from index `i` on, or the first
/// error among them.
pub open spec fn parsed_from(args: Seq<Seq<char>>, i: int, c: CliModel) -> Result<CliModel, Seq<char>>
    decreases args.len() - i,
{
    if i < 0 || i >= args.len() {
        Ok(c)
    } else {
        let a = args[i];
        if a == "--summon"@ {
            parsed_from(args, i + 1, CliModel { summon: true, ..c })
        } else if a == "--print-bind"@ {
            parsed_from(args, i + 1, CliModel { print_bind: true, ..c })
        } else if a == "--print-rows"@ {
            parsed_from(args, i + 1, CliModel { print_rows: true, ..c })
        } else if takes_value(a) {
            match value_at(args, i, a) {
                Err(e) => Err(e),
                Ok(v) => match with_value(c, a, v) {
                    Ok(c2) => parsed_from(args, i + 2, c2),
                    Err(e) => Err(e),
                },
            }
        } else {
            Err("unknown argument: "@ + a)
        }
    }
}

/// What the command line `args` (argv[0] first) parses to, with `store` as
/// the default store path.
pub open spec fn parsed_args(args: Seq<Seq<char>>, store: Seq<char>) -> Result<CliModel, Seq<char>> {
    parsed_from(args, 1, initial(store))
}

/// Consume the value following a flag at index `i` (advancing `i`).
pub fn next_value(args: &[String], i: &mut usize, flag: &str) -> (r: Result<String, String>)
    requires
        *old(i) < usize::MAX,
    ensures
        *final(i) == *old(i) + 1,
        match value_at(views(args@), *old(i) as int, flag@) {
            Ok(v) => r matches Ok(s) && s@ == v,
            Err(m) => r matches Err(e) && e@ == m,
        },
{
    *i += 1;
    if *i < args.len() {
        Ok(args[*i].clone())
    } else {
        Err(cat2(flag, " requires a value"))
    }
}

/// Parse argv (skipping argv[0]); `-h/--help` is handled by the caller.
/// `default_store` is the store path used when `--store` is not given.
pub fn parse_args(args: &[String], default_store: &str) -> (r: Result<Cli, String>)
    ensures
        match parsed_args(views(args@), default_store@) {
            Ok(c) => r matches Ok(cli) && cli@ == c,
            Err(m) => r matches Err(e) && e@ == m,
        },
{
    let mut cli = Cli {
        store: owned(default_store),
        summon: false,
        wake_key: None,
        set_wake_key: None,
        command_key: None,
        set_command_key: None,
        print_bind: false,
        print_rows: false,
        print_app: None,
        shell: owned("bash"),
    };
    let ghost a = views(args@);
    let mut i: usize = 1;
    while i < args.len()
        invariant
            a == views(args@),
            1 <= i,
            parsed_args(a, default_store@) == parsed_from(a, i as int, cli@),
        decreases args.len() - i,
    {
        let arg = args[i].as_str();
        let ghost i0 = i as int;
        let ghost c0 = cli@;
        assert(arg@ == a[i as int]);
        if eq_str(arg, "--summon") {
            cli.summon = true;
        } else if eq_str(arg, "--print-bind") {
            cli.print_bind = true;
        } else if eq_str(arg, "--print-rows") {
            cli.print_rows = true;
        } else if eq_str(arg, "--store") || eq_str(arg, "--wake-key") || eq_str(arg, "--set-wake-key")
            || eq_str(arg, "--command-key") || eq_str(arg, "--set-command-key") || eq_str(
            arg,
            "--print-app",
        ) || eq_str(arg, "--shell") {
            let flag = owned(arg);
            let v = match next_value(args, &mut i, flag.as_str()) {
                Ok(v) => v,
                Err(e) => {
                    return Err(e);
                },
            };
            assert(value_at(a, i0, arg@) == Ok::<Seq<char>, Seq<char>>(v@));
            if eq_str(flag.as_str(), "--store") {
                cli.store = v;
            } else if eq_str(flag.as_str(), "--wake-key") {
                cli.wake_key = Some(v);
            } else if eq_str(flag.as_str(), "--set-wake-key") {
                cli.set_wake_key = Some(v);
            } else if eq_str(flag.as_str(), "--command-key") {
                cli.command_key = Some(v);
            } else if eq_str(flag.as_str(), "--set-command-key") {
                cli.set_command_key = Some(v);
            } else if eq_str(flag.as_str(), "--print-app") {
                cli.print_app = Some(v);
            } else {
                if !eq_str(v.as_str(), "bash") && !eq_str(v.as_str(), "zsh") {
                    let q = debug_str(v.as_str());
                    return Err(cat3("unsupported shell ", q.as_str(), " (use \"bash\" or \"zsh\")"));
                }
                cli.shell = v;
            }
            assert(with_value(c0, arg@, v@) == Ok::<CliModel, Seq<char>>(cli@));
        } else {
            return Err(cat2("unknown argument: ", arg));
        }
        i += 1;
    }
    Ok(cli)
}

/// The bash binding's text before the readline sequence.
pub const BASH_HEAD: &'static str = "bind -x '\"";

/// The bash binding's text after the readline sequence.
pub const BASH_TAIL: &'static str = "\": \"xconsoler --summon\"' 2>/dev/null || true\n";

/// The zsh widget definition and the `bindkey` text before the sequence.
pub const ZSH_HEAD: &'static str = "xconsoler_invoke() { zle -I; xconsoler --summon \"$@\" </dev/tty; zle reset-prompt }\nzle -N xconsoler_invoke\nbindkey '";

/// The zsh binding's text after the readline sequence.
pub const ZSH_TAIL: &'static str = "' xconsoler_invoke\n";

/// The shell binding text for wake key `k` in `shell`.
pub open spec fn bind_lines(shell: Seq<char>, k: KeySpec) -> Result<Seq<char>, Seq<char>> {
    if shell == "bash"@ {
        Ok(BASH_HEAD@ + readline_of(k) + BASH_TAIL@)
    } else if shell == "zsh"@ {
        Ok(ZSH_HEAD@ + readline_of(k) + ZSH_TAIL@)
    } else {
        Err(unsupported_shell(shell))
    }
}

/// Shell binding text for a wake key (`bash` / `zsh`), newline-terminated.
/// The `\ed` / `\C-g` sequences are the literal readline spellings.
pub fn build_bind_lines(shell: &str, spec: &KeySpec) -> (r: Result<String, String>)
    ensures
        match bind_lines(shell@, *spec) {
            Ok(t) => r matches Ok(s) && s@ == t,
            Err(m) => r matches Err(e) && e@ == m,
        },
{
    let seq = readline_seq(spec);
    if eq_str(shell, "bash") {
        Ok(cat3(BASH_HEAD, seq.as_str(), BASH_TAIL))
    } else if eq_str(shell, "zsh") {
        Ok(cat3(ZSH_HEAD, seq.as_str(), ZSH_TAIL))
    } else {
        let q = debug_str(shell);
        Err(cat3("unsupported shell ", q.as_str(), " (use \"bash\" or \"zsh\")"))
    }
}

} // verus!
