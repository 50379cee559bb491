//! The kernel shell's command registry: named commands with aliases and
//! help texts, lookup by name or alias, and dispatch of a command line.
//! What a command does (printing, clearing the screen, powering off) is
//! carried out by the caller through the action the command names.
use crate::fs::str_views;
use crate::syscall::{decimal, decimal_digits};
use crate::text::{char_to_string, str_eq, to_lowercase, trim, trimmed, unicode_lowercase};
use vstd::prelude::*;

verus! {

/// The built-in behaviours a command can have.
#[derive(Debug, Clone, Copy, PartialEq, Eq, Structural)]
pub enum CommandAction {
    License,
    Credits,
    Smiley,
    Sad,
    Clear,
    Whoami,
    Panic,
    Shutdown,
    Help,
}

#[derive(Debug)]
pub struct Command {
    name: &'static str,
    aliases: Vec<&'static str>,
    help_message: &'static str,
    func: CommandAction,
}

/// A command as seen from outside: its name, aliases, help text and action.
pub struct CommandView {
    pub name: Seq<char>,
    pub aliases: Seq<Seq<char>>,
    pub help: Seq<char>,
    pub action: CommandAction,
}

pub open spec fn strs_view(v: Seq<&'static str>) -> Seq<Seq<char>> {
    v.map_values(|s: &'static str| s@)
}

impl View for Command {
    type V = CommandView;

    closed spec fn view(&self) -> CommandView {
        CommandView {
            name: self.name@,
            aliases: strs_view(self.aliases@),
            help: self.help_message@,
            action: self.func,
        }
    }
}

impl Command {
    pub fn new(
        name: &'static str,
        aliases: Vec<&'static str>,
        help_message: &'static str,
        func: CommandAction,
    ) -> (res: Self)
        ensures
            res@ == (CommandView {
                name: name@,
                aliases: strs_view(aliases@),
                help: help_message@,
                action: func,
            }),
    {
        Self { name, aliases, help_message, func }
    }

    pub fn get_name(&self) -> (res: &'static str)
        ensures
            res@ == self@.name,
    {
        self.name
    }

    pub fn get_aliases(&self) -> (res: Vec<&'static str>)
        ensures
            strs_view(res@) == self@.aliases,
    {
        let mut res: Vec<&'static str> = Vec::new();
        let mut i: usize = 0;
        while i < self.aliases.len()
            invariant
                i <= self.aliases@.len(),
                res@ == self.aliases@.take(i as int),
            decreases self.aliases@.len() - i,
        {
            res.push(self.aliases[i]);
            assert(res@ =~= self.aliases@.take(i + 1));
            i = i + 1;
        }
        assert(res@ =~= self.aliases@);
        res
    }

    pub fn get_help_msg(&self) -> (res: &'static str)
        ensures
            res@ == self@.help,
    {
        self.help_message
    }

    pub fn get_action(&self) -> (res: CommandAction)
        ensures
            res == self@.action,
    {
        self.func
    }
}

#[derive(Debug)]
pub struct CommandRegistry {
    commands: Vec<Command>,
}

pub open spec fn commands_view(v: Seq<Command>) -> Seq<CommandView> {
    v.map_values(|c: Command| c@)
}

/// Whether a command answers to `name`, by its name or one of its aliases.
pub open spec fn answers_to(c: CommandView, name: Seq<char>) -> bool {
    c.name == name || c.aliases.contains(name)
}

/// The text `get_help` builds: a banner, then a `name | help` line for each
/// command in order.
pub open spec fn help_lines(cmds: Seq<CommandView>) -> Seq<char>
    decreases cmds.len(),
{
    if cmds.len() == 0 {
        Seq::empty()
    } else {
        help_lines(cmds.drop_last()) + cmds.last().name + " | "@ + cmds.last().help + "\n"@
    }
}

pub open spec fn help_text(cmds: Seq<CommandView>) -> Seq<char> {
    "=| Help |===============\n"@ + help_lines(cmds)
}

impl View for CommandRegistry {
    type V = Seq<CommandView>;

    closed spec fn view(&self) -> Seq<CommandView> {
        commands_view(self.commands@)
    }
}

impl CommandRegistry {
    pub fn new() -> (res: Self)
        ensures
            res@ == Seq::<CommandView>::empty(),
    {
        let res = CommandRegistry { commands: Vec::new() };
        assert(res@ =~= Seq::<CommandView>::empty());
        res
    }

    pub fn push(&mut self, cmd: Command)
        ensures
            final(self)@ == old(self)@.push(cmd@),
    {
        self.commands.push(cmd);
        assert(self@ =~= old(self)@.push(cmd@));
    }

    pub fn pop(&mut self) -> (res: Option<Command>)
        ensures
            old(self)@.len() == 0 ==> res is None && final(self)@ == old(self)@,
            old(self)@.len() > 0 ==> (res matches Some(c) && c@ == old(self)@.last()
                && final(self)@ == old(self)@.drop_last()),
    {
        let res = self.commands.pop();
        proof {
            if old(self)@.len() > 0 {
                assert(self@ =~= old(self)@.drop_last());
            } else {
                assert(self@ =~= old(self)@);
            }
        }
        res
    }

    /// The help text: a banner line and one `name | help` line per command.
    pub fn get_help(&self) -> (res: String)
        ensures
            res@ == help_text(self@),
    {
        let mut s = String::from_str("=| Help |===============\n");
        let mut i: usize = 0;
        while i < self.commands.len()
            invariant
                i <= self.commands@.len(),
                s@ == "=| Help |===============\n"@ + help_lines(self@.take(i as int)),
            decreases self.commands@.len() - i,
        {
            let cmd = &self.commands[i];
            s.append(cmd.get_name());
            s.append(" | ");
            s.append(cmd.get_help_msg());
            s.append("\n");
            proof {
                assert(self@.take(i + 1).drop_last() =~= self@.take(i as int));
                assert(self@.take(i + 1).last() == cmd@);
            }
            i = i + 1;
        }
        assert(self@.take(self.commands@.len() as int) =~= self@);
        s
    }

    /// The first command (in registration order) that answers to `name`.
    pub fn search(&self, name: &str) -> (res: Option<&Command>)
        ensures
            match res {
                Some(c) => exists|i: int|
                    0 <= i < self@.len() && self@[i] == c@ && answers_to(c@, name@) && forall|j: int|
                        0 <= j < i ==> !answers_to(#[trigger] self@[j], name@),
                None => forall|j: int| 0 <= j < self@.len() ==> !answers_to(#[trigger] self@[j], name@),
            },
    {
        let mut i: usize = 0;
        while i < self.commands.len()
            invariant
                i <= self.commands@.len(),
                forall|j: int| 0 <= j < i ==> !answers_to(#[trigger] self@[j], name@),
            decreases self.commands@.len() - i,
        {
            let cmd = &self.commands[i];
            if str_eq(cmd.name, name) {
                assert(self@[i as int] == cmd@);
                return Some(cmd);
            }
            let mut k: usize = 0;
            while k < cmd.aliases.len()
                invariant
                    i < self.commands@.len(),
                    *cmd == self.commands@[i as int],
                    forall|j: int| 0 <= j < i ==> !answers_to(#[trigger] self@[j], name@),
                    k <= cmd.aliases@.len(),
                    forall|m: int| 0 <= m < k ==> cmd.aliases@[m]@ != name@,
                decreases cmd.aliases@.len() - k,
            {
                if str_eq(cmd.aliases[k], name) {
                    proof {
                        assert(cmd@.aliases[k as int] == name@);
                        assert(cmd@.aliases.contains(name@));
                        assert(self@[i as int] == cmd@);
                    }
                    return Some(cmd);
                }
                k = k + 1;
            }
            proof {
                assert(!cmd@.aliases.contains(name@)) by {
                    if cmd@.aliases.contains(name@) {
                        let m = choose|m: int| 0 <= m < cmd@.aliases.len() && cmd@.aliases[m] == name@;
                        assert(cmd.aliases@[m]@ == name@);
                    }
                }
            }
            i = i + 1;
        }
        None
    }

    /// Runs the command named by the first word of `input` (by name or
    /// alias) with the remaining words, through `run`; `None` when the input
    /// is empty or names no command.
    pub fn exec_command<'a, F: Fn(CommandAction, &CommandRegistry, Vec<&'a str>) -> i32>(
        &self,
        input: Vec<&'a str>,
        run: &F,
    ) -> (res: Option<i32>)
        requires
            forall|a: CommandAction, r: &CommandRegistry, args: Vec<&'a str>| run.requires((a, r, args)),
        ensures
            input@.len() == 0 ==> res is None,
            input@.len() > 0 && (forall|j: int|
                0 <= j < self@.len() ==> !answers_to(#[trigger] self@[j], input@[0]@)) ==> res is None,
            input@.len() > 0 && (exists|j: int| 0 <= j < self@.len() && answers_to(#[trigger] self@[j], input@[0]@))
                ==> (res matches Some(code) && exists|i: int, args: Vec<&'a str>|
                    #![trigger self@[i], args@]
                    0 <= i < self@.len() && answers_to(self@[i], input@[0]@) && (forall|j: int|
                        0 <= j < i ==> !answers_to(#[trigger] self@[j], input@[0]@)) && args@
                        == input@.subrange(1, input@.len() as int) && run.ensures(
                        (self@[i].action, self, args),
                        code,
                    )),
    {
        if input.len() == 0 {
            return None;
        }
        let cmd = self.search(input[0]);
        match cmd {
            None => {
                assert(forall|j: int| 0 <= j < self@.len() ==> !answers_to(#[trigger] self@[j], input@[0]@));
                None
            },
            Some(c) => {
                let mut args: Vec<&'a str> = Vec::new();
                let mut k: usize = 1;
                while k < input.len()
                    invariant
                        1 <= k <= input@.len(),
                        args@ == input@.subrange(1, k as int),
                    decreases input@.len() - k,
                {
                    args.push(input[k]);
                    assert(args@ =~= input@.subrange(1, k + 1));
                    k = k + 1;
                }
                let ghost args_copy = args;
                let code = run(c.func, self, args);
                proof {
                    let i = choose|i: int|
                        0 <= i < self@.len() && self@[i] == c@ && answers_to(c@, input@[0]@) && forall|j: int|
                            0 <= j < i ==> !answers_to(#[trigger] self@[j], input@[0]@);
                    assert(args_copy@ == input@.subrange(1, input@.len() as int));
                    assert(run.ensures((self@[i].action, self, args_copy), code));
                    assert(0 <= i < self@.len() && answers_to(self@[i], input@[0]@) && (forall|j: int|
                        0 <= j < i ==> !answers_to(#[trigger] self@[j], input@[0]@)) && args_copy@
                        == input@.subrange(1, input@.len() as int) && run.ensures(
                        (self@[i].action, self, args_copy),
                        code,
                    ));
                }
                Some(code)
            },
        }
    }
}

/// Builds the registry of built-in commands.
pub fn init_command_registry() -> (res: CommandRegistry)
    ensures
        res@.len() == 9,
        res@[0].name == "license"@ && res@[0].action == CommandAction::License,
        res@[1].name == "credits"@ && res@[1].action == CommandAction::Credits,
        res@[2].name == "smiley"@ && res@[2].action == CommandAction::Smiley,
        res@[3].name == "sad"@ && res@[3].action == CommandAction::Sad,
        res@[4].name == "clear"@ && res@[4].action == CommandAction::Clear,
        res@[5].name == "whoami"@ && res@[5].action == CommandAction::Whoami,
        res@[6].name == "panic"@ && res@[6].action == CommandAction::Panic,
        res@[7].name == "shutdown"@ && res@[7].action == CommandAction::Shutdown,
        res@[8].name == "help"@ && res@[8].action == CommandAction::Help,
        res@[0].aliases == seq!["lic"@, "l"@],
        res@[1].aliases == seq!["cred"@, "c"@],
        res@[2].aliases == seq!["yay"@, ":D"@, ":)"@],
        res@[3].aliases == seq!["nay"@, "D:"@, ":("@],
        res@[4].aliases == seq!["claer"@, "clera"@, "cear"@],
        res@[5].aliases == Seq::<Seq<char>>::empty(),
        res@[6].aliases == Seq::<Seq<char>>::empty(),
        res@[7].aliases == seq!["poweroff"@],
        res@[8].aliases == seq!["hlep"@, "h"@, "?"@],
        res@[0].help == "Displays the Lemoncake license and copyright information."@,
        res@[1].help == "Displays credits to the contributer(s) of Lemoncake."@,
        res@[2].help == "Prints a smiley face :)"@,
        res@[3].help == "Prints a sad face :("@,
        res@[4].help == "Clears the TTY."@,
        res@[5].help == "Tells you who you are."@,
        res@[6].help == "Panics the system."@,
        res@[7].help == "Powers off the VM. (does not work on real hw!)"@,
        res@[8].help == "Displays this message."@,
{
    let license_cmd = Command::new(
        "license",
        vec!["lic", "l"],
        "Displays the Lemoncake license and copyright information.",
        CommandAction::License,
    );
    let credits_cmd = Command::new(
        "credits",
        vec!["cred", "c"],
        "Displays credits to the contributer(s) of Lemoncake.",
        CommandAction::Credits,
    );
    let smiley_cmd = Command::new(
        "smiley",
        vec!["yay", ":D", ":)"],
        "Prints a smiley face :)",
        CommandAction::Smiley,
    );
    let sad_cmd = Command::new(
        "sad",
        vec!["nay", "D:", ":("],
        "Prints a sad face :(",
        CommandAction::Sad,
    );
    let clear_cmd = Command::new(
        "clear",
        vec!["claer", "clera", "cear"],
        "Clears the TTY.",
        CommandAction::Clear,
    );
    let whoami_cmd = Command::new(
        "whoami",
        Vec::new(),
        "Tells you who you are.",
        CommandAction::Whoami,
    );
    let panic_cmd = Command::new("panic", Vec::new(), "Panics the system.", CommandAction::Panic);
    let shutdown_cmd = Command::new(
        "shutdown",
        vec!["poweroff"],
        "Powers off the VM. (does not work on real hw!)",
        CommandAction::Shutdown,
    );
    let help_cmd = Command::new(
        "help",
        vec!["hlep", "h", "?"],
        "Displays this message.",
        CommandAction::Help,
    );
    let mut reg = CommandRegistry::new();
    reg.push(license_cmd);
    reg.push(credits_cmd);
    reg.push(smiley_cmd);
    reg.push(sad_cmd);
    reg.push(clear_cmd);
    reg.push(whoami_cmd);
    reg.push(panic_cmd);
    reg.push(shutdown_cmd);
    reg.push(help_cmd);
    assert(strs_view(seq!["lic", "l"]) =~= seq!["lic"@, "l"@]);
    assert(strs_view(seq!["cred", "c"]) =~= seq!["cred"@, "c"@]);
    assert(strs_view(seq!["yay", ":D", ":)"]) =~= seq!["yay"@, ":D"@, ":)"@]);
    assert(strs_view(seq!["nay", "D:", ":("]) =~= seq!["nay"@, "D:"@, ":("@]);
    assert(strs_view(seq!["claer", "clera", "cear"]) =~= seq!["claer"@, "clera"@, "cear"@]);
    assert(strs_view(Seq::<&'static str>::empty()) =~= Seq::<Seq<char>>::empty());
    assert(strs_view(seq!["poweroff"]) =~= seq!["poweroff"@]);
    assert(strs_view(seq!["hlep", "h", "?"]) =~= seq!["hlep"@, "h"@, "?"@]);
    reg
}

/// The port and value that power off a virtual machine of the given kind
/// (`qemu`, `bochs`/`old_qemu`, `vbox`/`virtualbox`; compared in lower case).
pub open spec fn shutdown_port(vm_type: Seq<char>) -> Option<(u16, u32)> {
    if vm_type == "qemu"@ {
        Some((0x604u16, 0x2000u32))
    } else if vm_type == "bochs"@ || vm_type == "old_qemu"@ {
        Some((0xB004u16, 0x2000u32))
    } else if vm_type == "vbox"@ || vm_type == "virtualbox"@ {
        Some((0x4004u16, 0x3400u32))
    } else {
        None
    }
}

/// Picks the power-off port write for a lower-cased VM kind; `None` for an
/// unknown kind (the shell then prints its usage).
pub fn shutdown_target(vm_type_lower: &str) -> (res: Option<(u16, u32)>)
    ensures
        res == shutdown_port(vm_type_lower@),
{
    if str_eq(vm_type_lower, "qemu") {
        Some((0x604, 0x2000))
    } else if str_eq(vm_type_lower, "bochs") || str_eq(vm_type_lower, "old_qemu") {
        Some((0xB004, 0x2000))
    } else if str_eq(vm_type_lower, "vbox") || str_eq(vm_type_lower, "virtualbox") {
        Some((0x4004, 0x3400))
    } else {
        None
    }
}

/// End of the piece that starts at `i`: the next space or the end.
pub open spec fn space_end(s: Seq<char>, i: int) -> int
    decreases s.len() - i,
{
    if i < 0 || i >= s.len() || s[i] == ' ' {
        if i < 0 {
            0
        } else {
            i
        }
    } else {
        space_end(s, i + 1)
    }
}

proof fn lemma_space_end(s: Seq<char>, i: int)
    requires
        0 <= i <= s.len(),
    ensures
        i <= space_end(s, i) <= s.len(),
        space_end(s, i) < s.len() ==> s[space_end(s, i)] == ' ',
    decreases s.len() - i,
{
    if i < s.len() && s[i] != ' ' {
        lemma_space_end(s, i + 1);
    }
}

/// What `split(' ')` yields from position `i`: the pieces between single
/// spaces, empty ones included.
pub open spec fn space_pieces_from(s: Seq<char>, i: int) -> Seq<Seq<char>>
    decreases s.len() - i,
{
    let j = space_end(s, i);
    if i < 0 || i > s.len() || j >= s.len() || j < i {
        seq![s.subrange(i, s.len() as int)]
    } else {
        seq![s.subrange(i, j)] + space_pieces_from(s, j + 1)
    }
}

pub open spec fn space_pieces(s: Seq<char>) -> Seq<Seq<char>> {
    space_pieces_from(s, 0)
}

/// `str::split(' ')`, collected.
pub fn split_spaces<'a>(s: &'a str) -> (res: Vec<&'a str>)
    ensures
        str_views(res@) == space_pieces(s@),
{
    let n = s.unicode_len();
    let mut res: Vec<&'a str> = Vec::new();
    let mut i: usize = 0;
    loop
        invariant
            n == s@.len(),
            i <= n,
            space_pieces(s@) == str_views(res@) + space_pieces_from(s@, i as int),
        decreases n - i,
    {
        proof {
            lemma_space_end(s@, i as int);
        }
        let mut j = i;
        while j < n && s.get_char(j) != ' '
            invariant
                n == s@.len(),
                i <= j <= n,
                space_end(s@, i as int) == space_end(s@, j as int),
            decreases n - j,
        {
            j = j + 1;
        }
        let piece = s.substring_char(i, j);
        let ghost before = res@;
        res.push(piece);
        assert(str_views(res@) =~= str_views(before) + seq![s@.subrange(i as int, j as int)]);
        if j >= n {
            assert(str_views(res@) =~= str_views(before) + space_pieces_from(s@, i as int));
            return res;
        }
        assert(str_views(res@) + space_pieces_from(s@, j + 1) =~= str_views(before) + (seq![
            s@.subrange(i as int, j as int),
        ] + space_pieces_from(s@, j + 1)));
        i = j + 1;
    }
}

/// What the shell reports besides a command's return code.
#[derive(Debug)]
pub enum ShellNotice {
    Nothing,
    /// No registry has been set up.
    RegistryMissing,
    /// No command answers to this name.
    NotFound(String),
}

/// Runs one line of the kernel shell. Comments (`#...`) and blank lines keep
/// the previous return code; without a registry the code is -2; a line whose
/// first space-separated word names no command gives -1; otherwise the
/// command runs (through `run`) with the remaining words and its code is
/// returned.
pub fn process_command<'a, F: Fn(CommandAction, &CommandRegistry, Vec<&'a str>) -> i32>(
    registry: Option<&CommandRegistry>,
    buf: &'a str,
    prev_ret_code: i32,
    run: &F,
) -> (res: (i32, ShellNotice))
    requires
        forall|a: CommandAction, r: &CommandRegistry, args: Vec<&'a str>| run.requires((a, r, args)),
    ensures
        ({
            let t = trimmed(buf@);
            let quiet = t.len() == 0 || t[0] == '#';
            let data = space_pieces(t);
            &&& quiet ==> res.0 == prev_ret_code && res.1 is Nothing
            &&& !quiet && registry is None ==> res.0 == -2 && res.1 is RegistryMissing
            &&& !quiet && registry is Some ==> {
                let reg = registry->0;
                &&& (forall|j: int| 0 <= j < reg@.len() ==> !answers_to(#[trigger] reg@[j], data[0]))
                    ==> res.0 == -1 && (res.1 matches ShellNotice::NotFound(name) && name@ == data[0])
                &&& (exists|j: int| 0 <= j < reg@.len() && answers_to(#[trigger] reg@[j], data[0]))
                    ==> res.1 is Nothing && exists|i: int, args: Vec<&'a str>|
                    #![trigger reg@[i], args@]
                    0 <= i < reg@.len() && answers_to(reg@[i], data[0]) && (forall|j: int|
                        0 <= j < i ==> !answers_to(#[trigger] reg@[j], data[0])) && str_views(args@)
                        == data.subrange(1, data.len() as int) && run.ensures(
                        (reg@[i].action, reg, args),
                        res.0,
                    )
            }
        }),
{
    let t = trim(buf);
    if t.unicode_len() == 0 || t.get_char(0) == '#' {
        return (prev_ret_code, ShellNotice::Nothing);
    }
    let reg = match registry {
        Some(r) => r,
        None => {
            return (-2, ShellNotice::RegistryMissing);
        },
    };
    let data = split_spaces(t);
    proof {
        lemma_space_pieces_nonempty(t@, 0);
    }
    let ghost d = data@;
    assert(str_views(d)[0] == d[0]@);
    let cmd_name = data[0];
    match reg.exec_command(data, run) {
        None => (-1, ShellNotice::NotFound(String::from_str(cmd_name))),
        Some(code) => {
            proof {
                assert forall|args: Vec<&'a str>| args@ == d.subrange(1, d.len() as int) implies str_views(args@)
                    == space_pieces(t@).subrange(1, space_pieces(t@).len() as int) by {
                    assert(str_views(args@) =~= str_views(d).subrange(1, d.len() as int));
                }
            }
            (code, ShellNotice::Nothing)
        },
    }
}

proof fn lemma_space_pieces_nonempty(s: Seq<char>, i: int)
    ensures
        space_pieces_from(s, i).len() >= 1,
    decreases s.len() - i,
{
    let j = space_end(s, i);
    if !(i < 0 || i > s.len() || j >= s.len() || j < i) {
        lemma_space_pieces_nonempty(s, j + 1);
    }
}


/// What a key does to the line being typed.
#[derive(Debug, Clone, Copy, PartialEq, Eq, Structural)]
pub enum KeyEffect {
    /// Delete removed the last character (if any).
    Erased,
    /// Enter: the line is to be run.
    Submitted,
    /// Any other character was added and is echoed.
    Echoed(char),
}

/// Calls `String::pop`: removes and returns the last character, or `None`
/// for an empty string.
#[verifier::external_body]
fn pop_char(s: &mut String) -> (res: Option<char>)
    ensures
        old(s)@.len() == 0 ==> res is None && final(s)@ == old(s)@,
        old(s)@.len() > 0 ==> res == Some(old(s)@.last()) && final(s)@ == old(s)@.drop_last(),
{
    s.pop()
}

/// Applies a typed character to the line: DEL (0x7F) removes the last
/// character, a newline submits the line (leaving it as it is), anything
/// else is appended.
pub fn edit_line(buf: &mut String, c: char) -> (res: KeyEffect)
    ensures
        c == '\u{7f}' ==> res == KeyEffect::Erased && final(buf)@ == if old(buf)@.len() == 0 {
            old(buf)@
        } else {
            old(buf)@.drop_last()
        },
        c == '\n' ==> res == KeyEffect::Submitted && final(buf)@ == old(buf)@,
        c != '\u{7f}' && c != '\n' ==> res == KeyEffect::Echoed(c) && final(buf)@ == old(buf)@.push(c),
{
    if c == '\u{7f}' {
        pop_char(buf);
        KeyEffect::Erased
    } else if c == '\n' {
        KeyEffect::Submitted
    } else {
        let cs = char_to_string(c);
        buf.append(cs.as_str());
        assert(buf@ =~= old(buf)@.push(c));
        KeyEffect::Echoed(c)
    }
}

/// The decimal digits of a return code, with a minus sign when negative.
pub open spec fn signed_decimal(n: i32) -> Seq<char> {
    let m: nat = if n < 0 { (-n) as nat } else { n as nat };
    (if n < 0 { seq!['-'] } else { Seq::empty() }) + decimal(m).map_values(|b: u8| b as char)
}

/// The shell prompt: the last return code in brackets, then `> `.
pub open spec fn prompt_text(code: i32) -> Seq<char> {
    seq!['['] + signed_decimal(code) + seq![']', ' ', '>', ' ']
}

/// The prompt shown before each line.
pub fn prompt(code: i32) -> (res: String)
    ensures
        res@ == prompt_text(code),
{
    let mut out = String::from_str("[");
    proof {
        reveal_strlit("[");
    }
    if code < 0 {
        let minus = char_to_string('-');
        out.append(minus.as_str());
    }
    let m: usize = if code < 0 {
        (0i64 - code as i64) as usize
    } else {
        code as usize
    };
    let digits = decimal_digits(m);
    let ghost head = out@;
    let mut i: usize = 0;
    while i < digits.len()
        invariant
            i <= digits@.len(),
            out@ == head + digits@.take(i as int).map_values(|b: u8| b as char),
        decreases digits@.len() - i,
    {
        let d = digits[i] as char;
        let ds = char_to_string(d);
        out.append(ds.as_str());
        assert(digits@.take(i + 1).map_values(|b: u8| b as char) =~= digits@.take(i as int).map_values(|b: u8| b as char).push(d));
        i = i + 1;
    }
    assert(digits@.take(digits@.len() as int) =~= digits@);
    let tail = String::from_str("] > ");
    proof {
        reveal_strlit("] > ");
    }
    out.append(tail.as_str());
    assert(out@ =~= prompt_text(code));
    out
}


/// What the `shutdown` command does with its arguments.
#[derive(Debug)]
pub enum ShutdownPlan {
    /// Not exactly one argument: print the usage (return code 1).
    Usage,
    /// An unknown machine kind (lower-cased): print it with the usage.
    Invalid(String),
    /// Write this value to this port to power off.
    PowerOff(u16, u32),
}

/// Decides the `shutdown` command: exactly one argument is expected, the
/// machine kind, compared in lower case; the return code is 1 for a wrong
/// argument count and 0 otherwise.
pub fn plan_shutdown(args: &Vec<&str>) -> (res: (ShutdownPlan, i32))
    ensures
        args@.len() != 1 ==> res.0 is Usage && res.1 == 1,
        args@.len() == 1 ==> res.1 == 0 && ({
            let lower = unicode_lowercase(args@[0]@);
            match shutdown_port(lower) {
                Some((port, val)) => res.0 matches ShutdownPlan::PowerOff(p, v) && p == port && v == val,
                None => res.0 matches ShutdownPlan::Invalid(t) && t@ == lower,
            }
        }),
{
    if args.len() != 1 {
        return (ShutdownPlan::Usage, 1);
    }
    let lower = to_lowercase(args[0]);
    match shutdown_target(lower.as_str()) {
        Some((port, val)) => (ShutdownPlan::PowerOff(port, val), 0),
        None => (ShutdownPlan::Invalid(lower), 0),
    }
}

} // verus!
