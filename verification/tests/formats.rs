use lemoncake::apic::{
    icr_from_registers, icr_pending, icr_registers, ipi_command, nmi_command, redtbl_from_registers,
    redtbl_registers, redtbl_words, route_irq, RedTbl,
};
use lemoncake::base64::{decode, decode_bytes, encode, encode_bytes, encoded_to_string};
use lemoncake::bool_to_yn;
use lemoncake::drivers::ustar::USTar;
use lemoncake::elf::{plan_load, required_memory, ProcInitError, Process, ProgramHeader};
use lemoncake::font::{draw_char_psf, parse_psf};
use lemoncake::framebuffer::{FrameBufferInfo, Framebuffer, PixelFormat};
use lemoncake::fs::split_path;
use lemoncake::fs::FSError;
use lemoncake::text::{remove_pattern, split_tokens, to_ascii_lowercase, trim};
use lemoncake::commandline::{plan_shutdown as shutdown_plan, ShutdownPlan as Plan};

#[test]
fn base64_encode_drops_padding() {
    assert_eq!(encode(b"hello"), "aGVsbG8");
    // The text ends with the encoded data: no '=' and no NUL filler.
    assert_eq!(encode(b"Man"), "TWFu");
    assert_eq!(encode(b"Ma"), "TWE");
    assert_eq!(encode(b""), "");
}

#[test]
fn base64_buffer_converts_to_unpadded_text() {
    assert_eq!(encoded_to_string(encode_bytes(b"M")).unwrap(), "TQ");
    assert_eq!(encoded_to_string(encode_bytes(b"Ma")).unwrap(), "TWE");
    let long = [0xFFu8; 96];
    assert_eq!(encoded_to_string(encode_bytes(&long)).unwrap(), "/".repeat(128));
}

#[test]
fn base64_decode_round_trip() {
    assert_eq!(decode(b"aGVsbG8="), "hello");
    assert_eq!(decode(b"TWFu"), "Man");
    assert_eq!(decode_bytes(b"TWE=").unwrap(), b"Ma".to_vec());
}

#[test]
fn base64_decode_refuses_bad_alphabet() {
    assert_eq!(decode(b"!!!!"), "An error occured when trying to decode! ()");
    assert!(decode_bytes(b"a*==").is_err());
}

#[test]
fn base64_decode_reports_non_utf8() {
    // "/w==" decodes to the single byte 0xFF, which is not UTF-8.
    let msg = decode(b"/w==");
    assert!(msg.starts_with("An error occured when trying to decode! "));
    assert!(msg.len() > 40);
}

#[test]
fn yes_and_no() {
    assert_eq!(bool_to_yn(true), "yes");
    assert_eq!(bool_to_yn(false), "no");
}

#[test]
fn path_components_skip_empty_parts() {
    assert_eq!(split_path("/a//b/c/"), vec!["a", "b", "c"]);
    assert_eq!(split_path("///"), Vec::<&str>::new());
    assert_eq!(split_path("file"), vec!["file"]);
}

#[test]
fn text_helpers() {
    assert_eq!(trim("  a b \t"), "a b");
    assert_eq!(to_ascii_lowercase("HeLLo Ä"), "hello Ä");
    // The shutdown command lower-cases its argument with full Unicode rules.
    match shutdown_plan(&vec!["RED Ä"]) {
        (Plan::Invalid(t), 0) => assert_eq!(t, "red ä"),
        other => panic!("unexpected {:?}", other),
    }
    assert_eq!(remove_pattern("echo echo hi", "echo "), "hi");
    assert_eq!(split_tokens("  a \u{3000} b  ", false), vec!["a", "b"]);
    assert_eq!(split_tokens("  a \u{3000} b  ", true), vec!["a", "\u{3000}", "b"]);
}

#[test]
fn whitespace_matches_std() {
    // every character std calls whitespace is trimmed, and no other
    for u in 0u32..0x3100 {
        if let Some(c) = char::from_u32(u) {
            let s = format!("{}x{}", c, c);
            let expected = if c.is_whitespace() { "x".to_string() } else { s.clone() };
            assert_eq!(trim(&s), expected, "U+{:04X}", u);
        }
    }
}

#[test]
fn redirection_entry_round_trip() {
    let n: u64 = 0xAB00_0000_0000_F3C5;
    let e = RedTbl::new(n);
    assert_eq!(e.vector, 0xC5);
    assert_eq!(e.delivery_mode, 0b11);
    assert!(!e.destination_mode);
    assert!(e.mask);
    assert_eq!(e.destination, 0xAB);
    assert_eq!(e.store(), n & 0xff00_0000_0000_ffff);
    let n2: u64 = 0x1234_5678_9ABC_DEF0;
    assert_eq!(RedTbl::new(n2).store(), n2 & 0xff00_0000_0000_ffff);
}

fn ustar_archive() -> &'static [u8] {
    let mut data = vec![0u8; 2048];
    // header 1: "hello.txt", size 5 (octal "5")
    data[0..9].copy_from_slice(b"hello.txt");
    data[124..135].copy_from_slice(b"00000000005");
    data[257..262].copy_from_slice(b"ustar");
    data[512..517].copy_from_slice(b"hello");
    // header 2 at 1024: "b.bin", size 3
    data[1024..1029].copy_from_slice(b"b.bin");
    data[1024 + 124..1024 + 135].copy_from_slice(b"00000000003");
    data[1024 + 257..1024 + 262].copy_from_slice(b"ustar");
    data[1536..1539].copy_from_slice(b"xyz");
    Box::leak(data.into_boxed_slice())
}

#[test]
fn ustar_finds_files() {
    let tar = USTar::new(ustar_archive());
    let f = tar.read_file(b"hello.txt").expect("file present");
    assert_eq!(f.get_name(), "hello.txt");
    assert_eq!(f.get_size(), 5);
    assert_eq!(f.read_all(), b"hello");
    assert_eq!(f.read(1, 3), b"ell");
    let g = tar.read_file(b"b.bin").expect("second file");
    assert_eq!(g.read_all(), b"xyz");
    assert!(tar.read_file(b"missing").is_none());
}

#[test]
fn ustar_walks_all_files() {
    let tar = USTar::new(ustar_archive());
    let mut it = tar.files();
    let mut names = Vec::new();
    while let Some(f) = it.next() {
        names.push(f.get_name().to_string());
    }
    assert_eq!(names, vec!["hello.txt".to_string(), "b.bin".to_string()]);
}

fn psf1_font() -> Vec<u8> {
    // 256 glyphs of 8 bytes; glyph 'A' (65) is a single top-left pixel row.
    let mut f = vec![0x36, 0x04, 0x00, 0x08];
    f.extend(std::iter::repeat(0u8).take(256 * 8));
    f[4 + 65 * 8] = 0b1000_0001;
    f
}

#[test]
fn psf1_font_is_read() {
    let data = psf1_font();
    let font = parse_psf(&data).expect("psf1");
    assert_eq!(font.num_glyphs, 256);
    assert_eq!(font.bytes_per_glyph, 8);
    assert_eq!(font.height, 8);
    assert_eq!(font.width, 8);
    assert!(parse_psf(&data[..100]).is_none());
    assert!(parse_psf(b"xx").is_none());
}

#[test]
fn psf2_font_with_short_data_is_refused() {
    let mut f = vec![0u8; 32];
    f[0..4].copy_from_slice(&0x864a_b572u32.to_le_bytes());
    f[8..12].copy_from_slice(&32u32.to_le_bytes());
    f[16..20].copy_from_slice(&2u32.to_le_bytes());
    f[20..24].copy_from_slice(&16u32.to_le_bytes());
    f[24..28].copy_from_slice(&16u32.to_le_bytes());
    f[28..32].copy_from_slice(&8u32.to_le_bytes());
    assert!(parse_psf(&f).is_none());
    f.extend(std::iter::repeat(0xFFu8).take(32));
    let font = parse_psf(&f).expect("psf2");
    assert_eq!(font.num_glyphs, 2);
    assert_eq!(font.height, 16);
}

#[test]
fn glyph_pixels_follow_bits() {
    let data = psf1_font();
    let info = FrameBufferInfo { width: 20, height: 21, stride: 20, bytes_per_pixel: 3, pixel_format: PixelFormat::Rgb };
    let mut fb = Framebuffer::new(info, vec![0u8; 20 * 21 * 3]);
    draw_char_psf(&mut fb, &data, 10, 20, 'A', (7, 8, 9, 0));
    let mut expected = vec![0u8; 20 * 21 * 3];
    for px in [10usize, 17] {
        let off = (20 * 20 + px) * 3;
        expected[off..off + 3].copy_from_slice(&[7, 8, 9]);
    }
    assert_eq!(fb.buffer(), &expected[..]);
    // A code point above 0xFF with no glyph falls back to glyph 0 (empty).
    let mut blank = Framebuffer::new(info, vec![0u8; 20 * 21 * 3]);
    draw_char_psf(&mut blank, &data, 0, 0, '\u{1F600}', (7, 8, 9, 255));
    assert!(blank.buffer().iter().all(|&b| b == 0));
}

#[test]
fn fs_error_messages() {
    assert_eq!(FSError::NotMounted.to_string(), "File System Not Mounted");
    assert_eq!(FSError::NoSpace.to_string(), "No Space Available");
}

fn tiny_elf() -> Vec<u8> {
    let mut f: Vec<u8> = Vec::new();
    f.extend_from_slice(&[0x7f, b'E', b'L', b'F', 2, 1, 1, 0, 0, 0, 0, 0, 0, 0, 0, 0]);
    f.extend_from_slice(&2u16.to_le_bytes()); // executable
    f.extend_from_slice(&0x3Eu16.to_le_bytes()); // x86-64
    f.extend_from_slice(&1u32.to_le_bytes());
    f.extend_from_slice(&0x10u64.to_le_bytes()); // entry
    f.extend_from_slice(&64u64.to_le_bytes()); // program headers
    f.extend_from_slice(&0u64.to_le_bytes()); // no section headers
    f.extend_from_slice(&0u32.to_le_bytes());
    f.extend_from_slice(&64u16.to_le_bytes());
    f.extend_from_slice(&56u16.to_le_bytes());
    f.extend_from_slice(&1u16.to_le_bytes());
    f.extend_from_slice(&64u16.to_le_bytes());
    f.extend_from_slice(&0u16.to_le_bytes());
    f.extend_from_slice(&0u16.to_le_bytes());
    assert_eq!(f.len(), 64);
    f.extend_from_slice(&1u32.to_le_bytes()); // PT_LOAD
    f.extend_from_slice(&5u32.to_le_bytes());
    f.extend_from_slice(&120u64.to_le_bytes()); // offset
    f.extend_from_slice(&0x10u64.to_le_bytes()); // vaddr
    f.extend_from_slice(&0x10u64.to_le_bytes()); // paddr
    f.extend_from_slice(&16u64.to_le_bytes()); // file size
    f.extend_from_slice(&32u64.to_le_bytes()); // memory size
    f.extend_from_slice(&0x1000u64.to_le_bytes());
    assert_eq!(f.len(), 120);
    f.extend(std::iter::repeat(0x90u8).take(16));
    f
}

#[test]
fn elf_load_plan_for_one_segment() {
    let data: &'static [u8] = Box::leak(tiny_elf().into_boxed_slice());
    let mut p = Process::new(data);
    assert_eq!(p.entrypoint(), None);
    let asked = std::cell::Cell::new(0usize);
    let plan = p
        .init(&|n: usize| {
            asked.set(n);
            Some(0x4000u64)
        })
        .unwrap();
    // 0x10 for the segment's address, then its 32 bytes of memory.
    assert_eq!(asked.get(), 48);
    assert_eq!(plan.len(), 1);
    assert_eq!(plan[0].dst, 0x4010);
    assert_eq!(plan[0].src, 120);
    assert_eq!(plan[0].copy_len, 16);
    assert_eq!(plan[0].fill_len, 16);
    assert_eq!(p.entrypoint(), Some(0x4010));
}

#[test]
fn elf_init_errors() {
    let junk: &'static [u8] = Box::leak(vec![1u8, 2, 3, 4].into_boxed_slice());
    let mut p = Process::new(junk);
    assert_eq!(p.init(&|_n: usize| Some(0u64)).unwrap_err(), ProcInitError::InvalidElf);
    assert_eq!(ProcInitError::InvalidElf.to_string(), "Invalid Elf");
    let data: &'static [u8] = Box::leak(tiny_elf().into_boxed_slice());
    let mut q = Process::new(data);
    assert_eq!(q.init(&|_n: usize| None).unwrap_err(), ProcInitError::AllocationError);
    assert_eq!(q.entrypoint(), None);
    assert_eq!(ProcInitError::AllocationError.to_string(), "Allocation Error");
}

fn ph(p_type: u32, p_offset: u64, p_vaddr: u64, p_filesz: u64, p_memsz: u64) -> ProgramHeader {
    ProgramHeader { p_type, p_offset, p_vaddr, p_filesz, p_memsz }
}

#[test]
fn elf_required_memory_and_plan() {
    let hs = vec![ph(1, 120, 0x10, 16, 32), ph(6, 0, 0, 0, 0), ph(1, 136, 0x100, 8, 4)];
    // 0x10 then 32 bytes; 48 < 0x100 so 0x100 is added, then 4 more bytes.
    assert_eq!(required_memory(&hs), Some(48 + 0x100 + 4));
    assert_eq!(required_memory(&vec![ph(1, 0, u64::MAX, 0, 1)]), None);
    assert_eq!(required_memory(&vec![]), Some(0));
    let (plan, entry) = plan_load(&hs, 0x4000, 144, 0x10).unwrap();
    assert_eq!(entry, 0x4010);
    assert_eq!(plan.len(), 2);
    assert_eq!((plan[0].dst, plan[0].src, plan[0].copy_len, plan[0].fill_len), (0x4010, 120, 16, 16));
    assert_eq!((plan[1].dst, plan[1].src, plan[1].copy_len, plan[1].fill_len), (0x4100, 136, 4, 0));
    // a segment whose file range passes the end of the file
    assert_eq!(plan_load(&hs, 0x4000, 143, 0x10).unwrap_err(), ProcInitError::AllocationError);
    // an entry point that passes 64 bits once moved
    assert_eq!(plan_load(&hs, 0x4000, 144, u64::MAX).unwrap_err(), ProcInitError::AllocationError);
    // a destination that passes 64 bits
    assert_eq!(plan_load(&hs, u64::MAX, 144, 0).unwrap_err(), ProcInitError::AllocationError);
}

#[test]
fn interrupt_command_registers() {
    assert_eq!(icr_registers(0x0300_0000_0000_4040), (0x0300_0000, 0x4040));
    assert_eq!(icr_from_registers(0x4040, 0x0300_0000), 0x0300_0000_0000_4040);
    let v = 0xdead_beef_1234_5678u64;
    let (hi, lo) = icr_registers(v);
    assert_eq!(icr_from_registers(lo, hi), v);
    assert!(icr_pending(0x1000));
    assert!(icr_pending(0x5040));
    assert!(!icr_pending(0x4040));
    assert_eq!(ipi_command(3), 0x0300_0000_0000_4040);
    assert_eq!(ipi_command(0x1ff), 0xff00_0000_0000_4040);
    assert_eq!(nmi_command(2), 0x0200_0000_0000_4400);
}

#[test]
fn redirection_entries_through_their_registers() {
    assert_eq!(redtbl_registers(0), (0x10, 0x11));
    assert_eq!(redtbl_registers(23), (0x3e, 0x3f));
    // Only bits 0-15 of the low word are written.
    assert_eq!(redtbl_words(0x0100_0000_00ab_cd21), (0xcd21, 0x0100_0000));
    assert_eq!(redtbl_from_registers(0xcd21, 0x0100_0000), 0x0100_0000_0000_cd21);
    let mut t = RedTbl::new(0);
    t.vector = 0x21;
    t.mask = true;
    t.destination = 3;
    let stored = t.store();
    let (lo, hi) = redtbl_words(stored);
    let back = redtbl_from_registers(lo, hi);
    assert_eq!(back, stored);
    let t2 = RedTbl::new(back);
    assert_eq!(t2.vector, 0x21);
    assert!(t2.mask);
    assert_eq!(t2.destination, 3);
}

#[test]
fn io_apic_lines_get_their_vectors() {
    // A masked, level-triggered entry for CPU 1 keeps its flags and gets
    // vector 50 + line.
    let entry = 0x0100_0000_0001_c000u64 | 0x33;
    let routed = route_irq(entry, 3);
    let t = RedTbl::new(routed);
    assert_eq!(t.vector, 53);
    assert!(t.mask);
    assert!(t.trigger_mode);
    assert_eq!(t.destination, 1);
    // Bits 16-55 are not part of an entry.
    assert_eq!(routed, 0x0100_0000_0000_c035);
    assert_eq!(route_irq(0, 23) & 0xff, 73);
    assert_eq!(route_irq(0, 206) & 0xff, 0);
}
