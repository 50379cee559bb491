//! The boot-stage shell (SHSH): what a command line asks for. Each line is
//! turned into a list of effects (text to print, colours to set, messages to
//! log, scans to run) that the console carries out in order.
use crate::base64::{decode, decode_answer, encode, encoded_text};
use crate::fs::str_views;
use crate::text::{
    all_ascii, has_prefix, remove_all, remove_pattern, split_tokens, starts_with, str_eq, to_lowercase,
    tokens, trim, trimmed, unicode_lowercase,
};
use crate::LEMONCAKE_VER;
use vstd::prelude::*;
use vstd::string::StringSliceAdditionalSpecFns;

verus! {

/// The shell's version.
pub const SHSH_VERSION: &'static str = "b0.5";

/// The sixteen text-mode colours.
#[derive(Debug, Clone, Copy, PartialEq, Eq, Structural)]
pub enum VgaColor {
    Black,
    Blue,
    Green,
    Cyan,
    Red,
    Magenta,
    Brown,
    LightGray,
    DarkGray,
    LightBlue,
    LightGreen,
    LightCyan,
    LightRed,
    Pink,
    Yellow,
    White,
}

/// One thing the console does for a command.
#[derive(Debug)]
pub enum ShellAction {
    /// Print the text as it is.
    Print(String),
    ClearScreen,
    SetForeground(VgaColor),
    SetBackground(VgaColor),
    Info(String),
    Warning(String),
    Error(String),
    /// Scan for AHCI disks and report each.
    ScanDisks,
    /// Scan the PCI bus and report each device.
    ScanPci,
    /// Stop the system with this message.
    Panic(String),
}

/// An action with its text as characters.
pub enum ShellEffect {
    Print(Seq<char>),
    ClearScreen,
    SetForeground(VgaColor),
    SetBackground(VgaColor),
    Info(Seq<char>),
    Warning(Seq<char>),
    Error(Seq<char>),
    ScanDisks,
    ScanPci,
    Panic(Seq<char>),
}

impl View for ShellAction {
    type V = ShellEffect;

    open spec fn view(&self) -> ShellEffect {
        match self {
            ShellAction::Print(s) => ShellEffect::Print(s@),
            ShellAction::ClearScreen => ShellEffect::ClearScreen,
            ShellAction::SetForeground(c) => ShellEffect::SetForeground(*c),
            ShellAction::SetBackground(c) => ShellEffect::SetBackground(*c),
            ShellAction::Info(s) => ShellEffect::Info(s@),
            ShellAction::Warning(s) => ShellEffect::Warning(s@),
            ShellAction::Error(s) => ShellEffect::Error(s@),
            ShellAction::ScanDisks => ShellEffect::ScanDisks,
            ShellAction::ScanPci => ShellEffect::ScanPci,
            ShellAction::Panic(s) => ShellEffect::Panic(s@),
        }
    }
}

pub open spec fn effects(v: Seq<ShellAction>) -> Seq<ShellEffect> {
    v.map_values(|a: ShellAction| a@)
}

/// The colour a (lower-case) name stands for.
pub open spec fn color_named(name: Seq<char>) -> Option<VgaColor> {
    if name == "red"@ {
        Some(VgaColor::Red)
    } else if name == "lightred"@ {
        Some(VgaColor::LightRed)
    } else if name == "yellow"@ {
        Some(VgaColor::Yellow)
    } else if name == "green"@ {
        Some(VgaColor::Green)
    } else if name == "lightgreen"@ {
        Some(VgaColor::LightGreen)
    } else if name == "cyan"@ {
        Some(VgaColor::Cyan)
    } else if name == "lightcyan"@ {
        Some(VgaColor::LightCyan)
    } else if name == "blue"@ {
        Some(VgaColor::Blue)
    } else if name == "lightblue"@ {
        Some(VgaColor::LightBlue)
    } else if name == "magenta"@ {
        Some(VgaColor::Magenta)
    } else if name == "pink"@ {
        Some(VgaColor::Pink)
    } else if name == "white"@ {
        Some(VgaColor::White)
    } else if name == "darkgray"@ {
        Some(VgaColor::DarkGray)
    } else if name == "lightgray"@ {
        Some(VgaColor::LightGray)
    } else if name == "brown"@ {
        Some(VgaColor::Brown)
    } else if name == "black"@ {
        Some(VgaColor::Black)
    } else {
        None
    }
}

fn color_by_name(name: &str) -> (res: Option<VgaColor>)
    ensures
        res == color_named(name@),
{
    if str_eq(name, "red") {
        Some(VgaColor::Red)
    } else if str_eq(name, "lightred") {
        Some(VgaColor::LightRed)
    } else if str_eq(name, "yellow") {
        Some(VgaColor::Yellow)
    } else if str_eq(name, "green") {
        Some(VgaColor::Green)
    } else if str_eq(name, "lightgreen") {
        Some(VgaColor::LightGreen)
    } else if str_eq(name, "cyan") {
        Some(VgaColor::Cyan)
    } else if str_eq(name, "lightcyan") {
        Some(VgaColor::LightCyan)
    } else if str_eq(name, "blue") {
        Some(VgaColor::Blue)
    } else if str_eq(name, "lightblue") {
        Some(VgaColor::LightBlue)
    } else if str_eq(name, "magenta") {
        Some(VgaColor::Magenta)
    } else if str_eq(name, "pink") {
        Some(VgaColor::Pink)
    } else if str_eq(name, "white") {
        Some(VgaColor::White)
    } else if str_eq(name, "darkgray") {
        Some(VgaColor::DarkGray)
    } else if str_eq(name, "lightgray") {
        Some(VgaColor::LightGray)
    } else if str_eq(name, "brown") {
        Some(VgaColor::Brown)
    } else if str_eq(name, "black") {
        Some(VgaColor::Black)
    } else {
        None
    }
}

/// A line printed with a newline after it.
pub open spec fn line(s: Seq<char>) -> ShellEffect {
    ShellEffect::Print(s + "\n"@)
}

/// What setting the foreground (`fg`) or background to the colour named
/// `name` does: the colour, or a warning for an unknown name.
pub open spec fn color_effect(name: Seq<char>, fg: bool) -> ShellEffect {
    match color_named(name) {
        Some(c) => if fg {
            ShellEffect::SetForeground(c)
        } else {
            ShellEffect::SetBackground(c)
        },
        None => ShellEffect::Warning("Color "@ + name + " is not an acceptable value!"@),
    }
}

/// The second whitespace-separated word of a line, or nothing.
pub open spec fn second_word(cmd: Seq<char>) -> Seq<char> {
    let ws = tokens(cmd, false);
    if ws.len() > 1 {
        ws[1]
    } else {
        Seq::empty()
    }
}

/// The usage text of the `pci` command.
pub open spec fn pci_usage() -> Seq<ShellEffect> {
    seq![line("Usage:"@), line("  -h -- Shows this message"@), line("  -s -- Searches for all PCI devices."@)]
}

/// The help text.
pub open spec fn help_effects() -> Seq<ShellEffect> {
    seq![
        line("SHSH Version b0.5."@),
        line("help -- Shows this message."@),
        line("echo [input] -- Echos user input."@),
        line("clear -- Clears the screen."@),
        line("ver -- Shows the version of SHSH and Lemoncake. (currently running SHSH b0.5)"@),
        line("color [fg, bg] -- Changes the color"@),
        line("b64encode [input] -- Encodes user input into Base64"@),
        line("b64decode [base64] -- Decodes Base64 user input into normal text."@),
        line("disks -- The disk utility."@),
        line("pci -- The PCI utility"@),
        line("error [message] -- prints like an error"@),
        line("warning [message] -- prints like a warning"@),
        line("info [message] -- prints like info"@),
        line("panic [message] -- panics the system\n"@),
    ]
}

/// Whether a line is the `b64decode` command (tested after the commands
/// before it).
pub open spec fn is_decode_command(cmd: Seq<char>) -> bool {
    let t = trimmed(cmd);
    !has_prefix(t, "echo"@) && !has_prefix(t, "clear"@) && !has_prefix(t, "ver"@) && !has_prefix(
        t,
        "b64encode"@,
    ) && has_prefix(t, "b64decode"@)
}

/// The effects of a command line other than `b64decode`: the first command
/// word (in the order echo, clear, ver, b64encode, color, disks, pci, error,
/// warning, info, panic, help) that the trimmed line starts with decides.
pub open spec fn shell_effects(cmd: Seq<char>) -> Seq<ShellEffect> {
    let t = trimmed(cmd);
    let words = tokens(t, true);
    if has_prefix(t, "echo"@) {
        seq![line(trimmed(t.subrange(4, t.len() as int)))]
    } else if has_prefix(t, "clear"@) {
        seq![ShellEffect::ClearScreen]
    } else if has_prefix(t, "ver"@) {
        seq![line("SHSH Version "@ + SHSH_VERSION@ + "\nLemoncake version: "@ + LEMONCAKE_VER@)]
    } else if has_prefix(t, "b64encode"@) {
        seq![line(encoded_text(vstd::utf8::encode_utf8(second_word(cmd))))]
    } else if has_prefix(t, "b64decode"@) {
        Seq::empty()
    } else if has_prefix(t, "color"@) {
        if words.len() < 3 {
            seq![line("Usage:"@), line("  [foreground color] [background color]"@)]
        } else {
            seq![
                color_effect(unicode_lowercase(words[1]), true),
                color_effect(unicode_lowercase(words[2]), false),
            ]
        }
    } else if has_prefix(t, "disks"@) {
        seq![ShellEffect::ScanDisks]
    } else if has_prefix(t, "pci"@) {
        if words.len() < 2 {
            pci_usage()
        } else if words[1] == "-s"@ {
            seq![ShellEffect::ScanPci]
        } else if words[1] == "-h"@ {
            pci_usage()
        } else {
            Seq::empty()
        }
    } else if has_prefix(t, "error"@) {
        seq![ShellEffect::Error(trimmed(remove_all(cmd, "error"@)))]
    } else if has_prefix(t, "warning"@) {
        seq![ShellEffect::Warning(trimmed(remove_all(cmd, "warning"@)))]
    } else if has_prefix(t, "info"@) {
        seq![ShellEffect::Info(trimmed(remove_all(cmd, "info"@)))]
    } else if has_prefix(t, "panic"@) {
        seq![ShellEffect::Panic(trimmed(remove_all(cmd, "panic"@)))]
    } else if has_prefix(t, "help"@) {
        help_effects()
    } else if t.len() == 0 {
        seq![ShellEffect::Print("\n"@)]
    } else {
        seq![line("Unknown command: "@ + cmd)]
    }
}

/// The effects of a `b64decode` line: the decoded text of its second word,
/// or, when that word holds a byte beyond ASCII (which the decoder's table
/// cannot index), a panic.
pub open spec fn decode_effects_ok(cmd: Seq<char>, out: Seq<ShellEffect>) -> bool {
    let bytes = vstd::utf8::encode_utf8(second_word(cmd));
    if all_ascii(bytes) {
        out.len() == 1 && exists|x: Seq<char>|
            #![trigger decode_answer(bytes, x)]
            decode_answer(bytes, x) && out[0] == line(x)
    } else {
        out == seq![ShellEffect::Panic("index out of bounds: the len is 128"@)]
    }
}

fn println_action(s: &str) -> (res: ShellAction)
    ensures
        res@ == line(s@),
{
    let mut out = String::from_str(s);
    out.append("\n");
    ShellAction::Print(out)
}

fn color_action(name: &str, fg: bool) -> (res: ShellAction)
    ensures
        res@ == color_effect(name@, fg),
{
    match color_by_name(name) {
        Some(c) => if fg {
            ShellAction::SetForeground(c)
        } else {
            ShellAction::SetBackground(c)
        },
        None => {
            let mut msg = String::from_str("Color ");
            msg.append(name);
            msg.append(" is not an acceptable value!");
            ShellAction::Warning(msg)
        },
    }
}

fn second_word_exec(command: &str) -> (res: &str)
    ensures
        res@ == second_word(command@),
{
    let words = split_tokens(command, false);
    if words.len() > 1 {
        assert(str_views(words@)[1] == words@[1]@);
        words[1]
    } else {
        proof {
            reveal_strlit("");
        }
        ""
    }
}

fn bytes_all_ascii(b: &[u8]) -> (res: bool)
    ensures
        res == all_ascii(b@),
{
    let mut k: usize = 0;
    while k < b.len()
        invariant
            k <= b@.len(),
            forall|j: int| 0 <= j < k ==> b@[j] < 128,
        decreases b@.len() - k,
    {
        if b[k] >= 128 {
            return false;
        }
        k = k + 1;
    }
    true
}

fn help_actions() -> (res: Vec<ShellAction>)
    ensures
        effects(res@) == help_effects(),
{
    let mut v: Vec<ShellAction> = Vec::new();
    v.push(println_action("SHSH Version b0.5."));
    v.push(println_action("help -- Shows this message."));
    v.push(println_action("echo [input] -- Echos user input."));
    v.push(println_action("clear -- Clears the screen."));
    v.push(
        println_action(
            "ver -- Shows the version of SHSH and Lemoncake. (currently running SHSH b0.5)",
        ),
    );
    v.push(println_action("color [fg, bg] -- Changes the color"));
    v.push(println_action("b64encode [input] -- Encodes user input into Base64"));
    v.push(println_action("b64decode [base64] -- Decodes Base64 user input into normal text."));
    v.push(println_action("disks -- The disk utility."));
    v.push(println_action("pci -- The PCI utility"));
    v.push(println_action("error [message] -- prints like an error"));
    v.push(println_action("warning [message] -- prints like a warning"));
    v.push(println_action("info [message] -- prints like info"));
    v.push(println_action("panic [message] -- panics the system\n"));
    assert(effects(v@) =~= help_effects());
    v
}

fn pci_usage_actions() -> (res: Vec<ShellAction>)
    ensures
        effects(res@) == pci_usage(),
{
    let mut v: Vec<ShellAction> = Vec::new();
    v.push(println_action("Usage:"));
    v.push(println_action("  -h -- Shows this message"));
    v.push(println_action("  -s -- Searches for all PCI devices."));
    assert(effects(v@) =~= pci_usage());
    v
}

fn single(a: ShellAction) -> (res: Vec<ShellAction>)
    ensures
        effects(res@) == seq![a@],
{
    let mut v: Vec<ShellAction> = Vec::new();
    v.push(a);
    assert(effects(v@) =~= seq![a@]);
    v
}

/// Works out what a shell command line asks the console to do.
pub fn process_command(command: &str) -> (res: Vec<ShellAction>)
    requires
        vstd::utf8::encode_utf8(second_word(command@)).len() + 4 <= usize::MAX,
    ensures
        !is_decode_command(command@) ==> effects(res@) == shell_effects(command@),
        is_decode_command(command@) ==> decode_effects_ok(command@, effects(res@)),
{
    let t = trim(command);
    if starts_with(t, "echo") {
        proof {
            reveal_strlit("echo");
        }
        let rest = t.substring_char(4, t.unicode_len());
        return single(println_action(trim(rest)));
    }
    if starts_with(t, "clear") {
        return single(ShellAction::ClearScreen);
    }
    if starts_with(t, "ver") {
        let mut s = String::from_str("SHSH Version ");
        s.append(SHSH_VERSION);
        s.append("\nLemoncake version: ");
        s.append(LEMONCAKE_VER);
        return single(println_action(s.as_str()));
    }
    if starts_with(t, "b64encode") {
        let word = second_word_exec(command);
        let bytes = word.as_bytes();
        return single(println_action(encode(bytes).as_str()));
    }
    if starts_with(t, "b64decode") {
        let word = second_word_exec(command);
        let bytes = word.as_bytes();
        if !bytes_all_ascii(bytes) {
            return single(ShellAction::Panic(String::from_str("index out of bounds: the len is 128")));
        }
        let text = decode(bytes);
        let res = single(println_action(text.as_str()));
        assert(decode_answer(bytes@, text@));
        return res;
    }
    let words = split_tokens(t, true);
    if starts_with(t, "color") {
        if words.len() < 3 {
            let mut v: Vec<ShellAction> = Vec::new();
            v.push(println_action("Usage:"));
            v.push(println_action("  [foreground color] [background color]"));
            assert(effects(v@) =~= shell_effects(command@));
            return v;
        }
        assert(str_views(words@)[1] == words@[1]@ && str_views(words@)[2] == words@[2]@);
        let fg = to_lowercase(words[1]);
        let bg = to_lowercase(words[2]);
        let mut v: Vec<ShellAction> = Vec::new();
        v.push(color_action(fg.as_str(), true));
        v.push(color_action(bg.as_str(), false));
        assert(effects(v@) =~= shell_effects(command@));
        return v;
    }
    if starts_with(t, "disks") {
        return single(ShellAction::ScanDisks);
    }
    if starts_with(t, "pci") {
        if words.len() < 2 {
            return pci_usage_actions();
        }
        assert(str_views(words@)[1] == words@[1]@);
        if str_eq(words[1], "-s") {
            return single(ShellAction::ScanPci);
        } else if str_eq(words[1], "-h") {
            return pci_usage_actions();
        }
        let v: Vec<ShellAction> = Vec::new();
        assert(effects(v@) =~= shell_effects(command@));
        return v;
    }
    if starts_with(t, "error") {
        proof {
            reveal_strlit("error");
        }
        let r = remove_pattern(command, "error");
        return single(ShellAction::Error(String::from_str(trim(r.as_str()))));
    }
    if starts_with(t, "warning") {
        proof {
            reveal_strlit("warning");
        }
        let r = remove_pattern(command, "warning");
        return single(ShellAction::Warning(String::from_str(trim(r.as_str()))));
    }
    if starts_with(t, "info") {
        proof {
            reveal_strlit("info");
        }
        let r = remove_pattern(command, "info");
        return single(ShellAction::Info(String::from_str(trim(r.as_str()))));
    }
    if starts_with(t, "panic") {
        proof {
            reveal_strlit("panic");
        }
        let r = remove_pattern(command, "panic");
        return single(ShellAction::Panic(String::from_str(trim(r.as_str()))));
    }
    if starts_with(t, "help") {
        return help_actions();
    }
    if t.unicode_len() == 0 {
        return single(ShellAction::Print(String::from_str("\n")));
    }
    let mut msg = String::from_str("Unknown command: ");
    msg.append(command);
    single(println_action(msg.as_str()))
}

} // verus!
