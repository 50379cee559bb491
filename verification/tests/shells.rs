use lemoncake::boot::command_line::{process_command as shsh, ShellAction, VgaColor};
use lemoncake::commandline::{
    init_command_registry, process_command, shutdown_target, split_spaces, Command, CommandAction,
    CommandRegistry, ShellNotice,
};
use lemoncake::display::TTY;
use lemoncake::framebuffer::{FrameBufferInfo, Framebuffer, PixelFormat};
use lemoncake::syscall::{
    decimal_digits, format_int_reply, print_outcome, random_reply, read_reply, syscall_from_regs,
    syscall_handler, syscall_reply, Observed, PrintLevel, Regs, Syscall,
};

fn printed(actions: &[ShellAction]) -> Vec<String> {
    actions
        .iter()
        .filter_map(|a| match a {
            ShellAction::Print(s) => Some(s.clone()),
            _ => None,
        })
        .collect()
}

#[test]
fn shsh_echo_and_version() {
    assert_eq!(printed(&shsh("echo   hello world ")), vec!["hello world\n".to_string()]);
    // Echo prints the input after the command word as it was typed.
    assert_eq!(printed(&shsh("echo say echo hi")), vec!["say echo hi\n".to_string()]);
    assert_eq!(
        printed(&shsh("ver")),
        vec!["SHSH Version b0.5\nLemoncake version: 25m3\n".to_string()]
    );
    assert!(matches!(shsh("  clear")[0], ShellAction::ClearScreen));
    assert_eq!(printed(&shsh("")), vec!["\n".to_string()]);
    assert_eq!(printed(&shsh("frobnicate")), vec!["Unknown command: frobnicate\n".to_string()]);
}

#[test]
fn shsh_base64() {
    assert_eq!(printed(&shsh("b64encode hello")), vec!["aGVsbG8\n".to_string()]);
    assert_eq!(printed(&shsh("b64decode aGVsbG8=")), vec!["hello\n".to_string()]);
    assert_eq!(printed(&shsh("b64encode")), vec!["\n".to_string()]);
    assert!(matches!(shsh("b64decode ä")[0], ShellAction::Panic(_)));
}

#[test]
fn shsh_colors() {
    let a = shsh("color RED lightblue");
    assert!(matches!(a[0], ShellAction::SetForeground(VgaColor::Red)));
    assert!(matches!(a[1], ShellAction::SetBackground(VgaColor::LightBlue)));
    let b = shsh("color mauve black");
    match &b[0] {
        ShellAction::Warning(m) => assert_eq!(m, "Color mauve is not an acceptable value!"),
        _ => panic!("expected a warning"),
    }
    assert_eq!(shsh("color red").len(), 2);
    assert_eq!(printed(&shsh("color red"))[0], "Usage:\n");
}

#[test]
fn shsh_logs_and_scans() {
    match &shsh("error  disk on fire ")[0] {
        ShellAction::Error(m) => assert_eq!(m, "disk on fire"),
        _ => panic!(),
    }
    match &shsh("info hi")[0] {
        ShellAction::Info(m) => assert_eq!(m, "hi"),
        _ => panic!(),
    }
    match &shsh("panic now")[0] {
        ShellAction::Panic(m) => assert_eq!(m, "now"),
        _ => panic!(),
    }
    assert!(matches!(shsh("disks")[0], ShellAction::ScanDisks));
    assert!(matches!(shsh("pci -s")[0], ShellAction::ScanPci));
    assert_eq!(shsh("pci -h").len(), 3);
    assert_eq!(shsh("pci").len(), 3);
    assert!(shsh("pci -x").is_empty());
    assert_eq!(shsh("help").len(), 14);
}

fn run(a: CommandAction, _r: &CommandRegistry, args: Vec<&str>) -> i32 {
    match a {
        CommandAction::Shutdown => args.len() as i32,
        CommandAction::Help => 0,
        _ => 7,
    }
}

#[test]
fn registry_lookup_and_help() {
    let reg = init_command_registry();
    assert_eq!(reg.search("poweroff").unwrap().get_name(), "shutdown");
    assert_eq!(reg.search(":)").unwrap().get_action(), CommandAction::Smiley);
    assert!(reg.search("nothing").is_none());
    let help = reg.get_help();
    assert!(help.starts_with("=| Help |===============\nlicense | "));
    assert!(help.ends_with("help | Displays this message.\n"));
    assert_eq!(reg.exec_command(vec!["shutdown", "qemu"], &run), Some(1));
    assert_eq!(reg.exec_command(vec![], &run), None);
}

#[test]
fn registry_push_pop() {
    let mut reg = CommandRegistry::new();
    assert!(reg.pop().is_none());
    reg.push(Command::new("x", vec!["y"], "test", CommandAction::Clear));
    assert_eq!(reg.search("y").unwrap().get_aliases(), vec!["y"]);
    assert_eq!(reg.pop().unwrap().get_help_msg(), "test");
}

#[test]
fn kernel_shell_lines() {
    let reg = init_command_registry();
    assert!(matches!(process_command(Some(&reg), "  # note", 5, &run), (5, ShellNotice::Nothing)));
    assert!(matches!(process_command(Some(&reg), "   ", 3, &run), (3, ShellNotice::Nothing)));
    assert!(matches!(process_command(None, "help", 0, &run), (-2, ShellNotice::RegistryMissing)));
    match process_command(Some(&reg), "bogus arg", 0, &run) {
        (-1, ShellNotice::NotFound(n)) => assert_eq!(n, "bogus"),
        _ => panic!(),
    }
    assert!(matches!(process_command(Some(&reg), "poweroff  vbox", 0, &run), (2, ShellNotice::Nothing)));
    assert_eq!(split_spaces("a  b"), vec!["a", "", "b"]);
    assert_eq!(shutdown_target("qemu"), Some((0x604, 0x2000)));
    assert_eq!(shutdown_target("old_qemu"), Some((0xB004, 0x2000)));
    assert_eq!(shutdown_target("vmware"), None);
}

#[test]
fn terminal_writes_and_colors() {
    let mut tty = TTY::new(Some((80, 24)));
    assert_eq!(tty.size(), (10, 3));
    tty.write_str("hi");
    assert_eq!(tty.get_char(0, 0), Some('h'));
    assert_eq!(tty.get_char(1, 0), Some('i'));
    tty.write_str("\x1b[31mX");
    assert_eq!(tty.get_char(2, 0), Some('X'));
    assert_ne!(tty.cell(2, 0).unwrap().color, tty.cell(0, 0).unwrap().color);
    assert_eq!(tty.get_cur_loc(16), (24, 0));
    tty.delete(true);
    assert_eq!(tty.get_cur_loc(16), (16, 0));
    let info = FrameBufferInfo { width: 2, height: 1, stride: 2, bytes_per_pixel: 3, pixel_format: PixelFormat::Rgb };
    let mut fb = Framebuffer::new(info, vec![0u8; 6]);
    tty.clear_tty(&mut fb);
    assert_eq!(fb.buffer(), &[30, 30, 46, 30, 30, 46]);
    assert_eq!(tty.get_cur_loc(16), (0, 0));
    assert_eq!(tty.get_char(0, 0), Some('\0'));
    assert_eq!(tty.get_char(50, 0), None);
}

#[test]
fn terminal_read_back_after_write() {
    let mut tty = TTY::new(Some((80, 24)));
    tty.write_str("\x1b[31mhi");
    let red = (243, 139, 168, 255);
    assert_eq!(tty.get_char(0, 0), Some('h'));
    assert_eq!(tty.get_char(1, 0), Some('i'));
    assert_eq!(tty.cell(0, 0).unwrap().color, red);
    assert_eq!(tty.cell(1, 0).unwrap().color, red);
    assert_eq!(tty.get_char(2, 0), Some('\0'));
    assert_eq!(tty.get_cur_loc(16), (16, 0));
    // put then read back; the neighbour keeps its character
    tty.set_char(4, 2, 'z', (1, 2, 3, 255));
    assert_eq!(tty.get_char(4, 2), Some('z'));
    assert_eq!(tty.cell(4, 2).unwrap().color, (1, 2, 3, 255));
    assert_eq!(tty.get_char(0, 0), Some('h'));
    // outside the terminal nothing is written
    tty.set_char(10, 0, 'q', red);
    assert_eq!(tty.get_char(10, 0), None);
    // a long line wraps and the cursor stays inside the terminal
    tty.write_str("abcdefghijklmnopqrstuvwxyz");
    let (x, y) = tty.get_cur_loc(1);
    assert!(x <= 80 && y <= 3);
}

#[test]
fn syscalls_decode() {
    assert_eq!(syscall_handler(1, 2, 0x1000, 5, 0, 0, 0), Syscall::Print { level: 2, addr: 0x1000, len: 5 });
    assert_eq!(syscall_handler(1, 2, 0, 5, 0, 0, 0), Syscall::BadPrint { addr: 0, len: 5 });
    assert_eq!(syscall_handler(1, 2, 1, 4097, 0, 0, 0), Syscall::BadPrint { addr: 1, len: 4097 });
    assert_eq!(syscall_handler(3, 10, 0, 0, 0, 0, 0), Syscall::Sleep { ms: 10 });
    assert_eq!(syscall_handler(6, 2, 0, 0, 0, 0, 0), Syscall::Face { happy: false });
    assert_eq!(syscall_handler(6, 9, 0, 0, 0, 0, 0), Syscall::BadFace);
    assert_eq!(syscall_handler(99, 0, 0, 0, 0, 0, 0), Syscall::Unknown { number: 99 });
    assert_eq!(
        syscall_handler(0, 0x100, 8, 0x3000, 2, usize::MAX, 0),
        Syscall::Read { name: 0x100, name_len: 8, buf: 0x3000, offset: 2, amount: usize::MAX }
    );
    let regs = Regs { rax: 0, rdi: 0x100, rsi: 8, rdx: 0x3000, r10: 4, r8: 16, r9: 0 };
    assert_eq!(
        syscall_from_regs(&regs),
        Syscall::Read { name: 0x100, name_len: 8, buf: 0x3000, offset: 4, amount: 16 }
    );
    let regs = Regs { rax: 5, rdi: 0x2000, rsi: 3, rdx: 12345, r10: 0, r8: 0, r9: 0 };
    assert_eq!(syscall_from_regs(&regs), Syscall::FormatInt { dst: 0x2000, cap: 3, value: 12345 });
}

#[test]
fn syscall_replies() {
    assert_eq!(print_outcome(3, true, 5), (Some(PrintLevel::Warning), 5));
    assert_eq!(print_outcome(9, true, 5), (None, usize::MAX));
    assert_eq!(print_outcome(9, false, 5), (None, 5));
    assert_eq!(decimal_digits(0), b"0".to_vec());
    assert_eq!(decimal_digits(12345), b"12345".to_vec());
    assert_eq!(format_int_reply(12345, 3), b"123".to_vec());
    assert_eq!(format_int_reply(7, 0), Vec::<u8>::new());
    assert_eq!(random_reply(&|| Some(42)), 42);
    assert_eq!(random_reply(&|| None), usize::MAX);
}

#[test]
fn syscall_read_and_answers() {
    let file = b"hello world";
    assert_eq!(read_reply(Some(file), 6, usize::MAX), (b"world".to_vec(), 5));
    assert_eq!(read_reply(Some(file), 0, 5), (b"hello".to_vec(), 5));
    assert_eq!(read_reply(Some(file), 9, 10), (b"ld".to_vec(), 2));
    assert_eq!(read_reply(Some(file), 11, 3), (Vec::new(), 0));
    assert_eq!(read_reply(Some(file), 12, 3), (Vec::new(), usize::MAX));
    assert_eq!(read_reply(None, 0, 3), (Vec::new(), usize::MAX));

    let print = Syscall::Print { level: 2, addr: 0x1000, len: 5 };
    assert_eq!(syscall_reply(print, Observed::Text { utf8: true }), Some(5));
    assert_eq!(syscall_reply(print, Observed::Text { utf8: false }), Some(5));
    let bad_level = Syscall::Print { level: 9, addr: 0x1000, len: 5 };
    assert_eq!(syscall_reply(bad_level, Observed::Text { utf8: true }), Some(usize::MAX));
    assert_eq!(syscall_reply(Syscall::BadPrint { addr: 0, len: 5 }, Observed::Nothing), Some(usize::MAX));
    assert_eq!(syscall_reply(Syscall::Panic { addr: 1, len: 1 }, Observed::Nothing), None);
    assert_eq!(syscall_reply(Syscall::Sleep { ms: 3 }, Observed::Nothing), Some(0));
    assert_eq!(syscall_reply(Syscall::Random, Observed::Random { value: 42 }), Some(42));
    let fmt = Syscall::FormatInt { dst: 0x2000, cap: 3, value: 12345 };
    assert_eq!(syscall_reply(fmt, Observed::Nothing), Some(3));
    let fmt_all = Syscall::FormatInt { dst: 0x2000, cap: 10, value: 12345 };
    assert_eq!(syscall_reply(fmt_all, Observed::Nothing), Some(5));
    let fmt_none = Syscall::FormatInt { dst: 0x2000, cap: 0, value: 12345 };
    assert_eq!(syscall_reply(fmt_none, Observed::Nothing), Some(usize::MAX));
    assert_eq!(syscall_reply(Syscall::Face { happy: true }, Observed::Nothing), Some(0));
    assert_eq!(syscall_reply(Syscall::BadFace, Observed::Nothing), Some(usize::MAX));
    assert_eq!(syscall_reply(Syscall::Unknown { number: 9 }, Observed::Nothing), Some(usize::MAX));
    let read = Syscall::Read { name: 1, name_len: 1, buf: 2, offset: 0, amount: 5 };
    assert_eq!(syscall_reply(read, Observed::FileRead { answer: 5 }), Some(5));
}

#[test]
fn terminal_cursor_stays_inside_after_writes() {
    let mut tty = TTY::new(Some((80, 24)));
    assert_eq!(tty.size(), (10, 3));
    tty.write_str("one\ntwo\nthree\nfour\n");
    tty.write_str("a long line that wraps past the right edge several times over");
    let (x, y) = tty.get_cur_loc(16);
    assert!(x < 80 && y < 48);
    tty.write_str("\n\n\n\n");
    assert_eq!(tty.get_cur_loc(16).0, 0);
    assert!(tty.get_cur_loc(16).1 < 48);
}

#[test]
fn terminal_faces_are_drawn_and_advance() {
    let mut tty = TTY::new(Some((80, 48)));
    let info = FrameBufferInfo { width: 80, height: 48, stride: 80, bytes_per_pixel: 3, pixel_format: PixelFormat::Rgb };
    let mut fb = Framebuffer::new(info, vec![0u8; 80 * 48 * 3]);
    let (x, y, color) = tty.yay(Some((1, 2, 3, 255)), 16, &mut fb);
    assert_eq!((x, y, color), (0, 0, (1, 2, 3, 255)));
    // The smiley's left eye is at (1, 0); its corner (0, 0) stays blank.
    assert_eq!(&fb.buffer()[3..6], &[1, 2, 3]);
    assert_eq!(&fb.buffer()[0..3], &[0, 0, 0]);
    assert_eq!(tty.get_cur_loc(16), (8, 0));
    let (x2, y2, c2) = tty.sad(None, 16, &mut fb);
    assert_eq!((x2, y2), (8, 0));
    let off = (0 * 80 + 9) * 3;
    assert_eq!(&fb.buffer()[off..off + 3], &[c2.0, c2.1, c2.2]);
    assert_eq!(tty.get_cur_loc(16), (16, 0));
    // A fully transparent colour draws nothing but still moves on.
    let before = fb.buffer().to_vec();
    tty.yay(Some((9, 9, 9, 0)), 16, &mut fb);
    assert_eq!(fb.buffer(), &before[..]);
    assert_eq!(tty.get_cur_loc(16), (24, 0));
}
