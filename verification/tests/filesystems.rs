use lemoncake::disks::SectorDevice;
use lemoncake::fs::ext2::{mount_ext2, BlockDev, SeekFrom};
use lemoncake::fs::fat::{
    build_dir_records, find_free_run, generate_8_3, lfn_checksum, parse_8_3_name, scan_cluster,
    utf16_chunks, ClusterScan, FAT,
};
use lemoncake::fs::sfs::{IndexArea, IndexEntry, SuperBlock, SFS};
use lemoncake::fs::shfs::Header;
use lemoncake::fs::{FSError, Filesystem};
use std::collections::HashMap;

/// A disk that keeps 512-byte sectors per (port, block) address.
struct MemDisk {
    sectors: HashMap<(usize, u64), Vec<u8>>,
    fail_reads: bool,
    fail_at: Option<(usize, u64)>,
}

impl MemDisk {
    fn new() -> Self {
        MemDisk { sectors: HashMap::new(), fail_reads: false, fail_at: None }
    }
    fn put(&mut self, port: usize, lba: u64, data: &[u8]) {
        let mut s = vec![0u8; 512];
        s[..data.len()].copy_from_slice(data);
        self.sectors.insert((port, lba), s);
    }
    fn get(&self, port: usize, lba: u64) -> Vec<u8> {
        self.sectors.get(&(port, lba)).cloned().unwrap_or(vec![0u8; 512])
    }
}

impl SectorDevice for MemDisk {
    fn read_sector(&mut self, port_num: usize, lba: u64, buf: &mut [u8]) -> bool {
        if self.fail_reads || self.fail_at == Some((port_num, lba)) || buf.len() != 512 {
            return false;
        }
        buf.copy_from_slice(&self.get(port_num, lba));
        true
    }
    fn write_sector(&mut self, port_num: usize, lba: u64, buf: &[u8]) -> bool {
        if buf.len() != 512 {
            return false;
        }
        self.sectors.insert((port_num, lba), buf.to_vec());
        true
    }
}

const RESERVED: u64 = 32;
const SPF: u32 = 1;
const DATA_START: u64 = RESERVED + 2 * SPF as u64;

fn short_entry(name: &[u8; 11], attr: u8, cluster: u32, size: u32) -> [u8; 32] {
    let mut e = [0u8; 32];
    e[..11].copy_from_slice(name);
    e[11] = attr;
    e[20..22].copy_from_slice(&((cluster >> 16) as u16).to_le_bytes());
    e[26..28].copy_from_slice(&(cluster as u16).to_le_bytes());
    e[28..32].copy_from_slice(&size.to_le_bytes());
    e
}

/// A FAT32 volume: 512-byte sectors, one sector a cluster, root at cluster
/// 2 holding HELLO.TXT (cluster 3) and SUB (cluster 4, a directory holding
/// DEEP.BIN at cluster 5).
fn fat_disk() -> MemDisk {
    let mut d = MemDisk::new();
    let mut boot = vec![0u8; 512];
    boot[0x0B..0x0D].copy_from_slice(&512u16.to_le_bytes());
    boot[0x0D] = 1;
    boot[0x0E..0x10].copy_from_slice(&(RESERVED as u16).to_le_bytes());
    boot[0x10] = 2;
    boot[0x24..0x28].copy_from_slice(&SPF.to_le_bytes());
    boot[0x2C..0x30].copy_from_slice(&2u32.to_le_bytes());
    boot[0x36..0x3E].copy_from_slice(b"FAT32   ");
    d.put(0, 0, &boot);
    // The table: entries 0..5 in use, the chains end at once.
    let mut fat = vec![0u8; 512];
    for c in 0..6 {
        fat[c * 4..c * 4 + 4].copy_from_slice(&0x0FFF_FFFFu32.to_le_bytes());
    }
    d.put(0, RESERVED, &fat);
    // The allocator addresses table sectors as ports.
    d.put(RESERVED as usize, 0, &fat);
    let mut root = vec![0u8; 512];
    root[0..32].copy_from_slice(&short_entry(b"HELLO   TXT", 0x20, 3, 5));
    root[32..64].copy_from_slice(&short_entry(b"SUB        ", 0x10, 4, 0));
    d.put(0, DATA_START, &root);
    d.put(0, DATA_START + 1, b"hello");
    let mut sub = vec![0u8; 512];
    sub[0..32].copy_from_slice(&short_entry(b"DEEP    BIN", 0x20, 5, 3));
    d.put(0, DATA_START + 2, &sub);
    d.put(0, DATA_START + 3, b"abc");
    d
}

#[test]
fn fat_mount_and_unmount() {
    let mut disk = fat_disk();
    let mut fat = FAT::new(&mut disk);
    assert_eq!(fat.unmount(), Err(FSError::NotMounted));
    assert_eq!(fat.mount(), Ok(()));
    assert!(fat.supports_geometry());
    assert_eq!(fat.cluster_size(), 512);
    assert_eq!(fat.mount(), Err(FSError::AlreadyMounted));
    assert_eq!(fat.unmount(), Ok(()));
    assert_eq!(fat.mount(), Ok(()));
}

#[test]
fn fat_mount_refuses_other_filesystems() {
    let mut disk = fat_disk();
    let mut boot = disk.get(0, 0);
    boot[0x36..0x3E].copy_from_slice(b"FAT16   ");
    disk.put(0, 0, &boot);
    let mut fat = FAT::new(&mut disk);
    assert_eq!(fat.validate(), Err(FSError::BadFS));
    assert_eq!(fat.mount(), Err(FSError::BadFS));
    disk.fail_reads = true;
    let mut fat = FAT::new(&mut disk);
    assert_eq!(fat.mount(), Err(FSError::ReadError));
}

#[test]
fn fat_reads_files_case_insensitively() {
    let mut disk = fat_disk();
    let mut fat = FAT::new(&mut disk);
    let mut buf = [0u8; 16];
    assert_eq!(fat.read_file("/hello.txt", &mut buf), Err(FSError::NotMounted));
    fat.mount().unwrap();
    assert_eq!(fat.read_file("/Hello.TXT", &mut buf), Ok(5));
    assert_eq!(&buf[..5], b"hello");
    let mut small = [0u8; 2];
    assert_eq!(fat.read_file("hello.txt", &mut small), Ok(2));
    assert_eq!(&small, b"he");
    let mut buf2 = [0u8; 8];
    assert_eq!(fat.read_file("/sub/deep.bin", &mut buf2), Ok(3));
    assert_eq!(&buf2[..3], b"abc");
}

#[test]
fn fat_lookup_and_read_follow_chains() {
    let mut disk = fat_disk();
    // The root's cluster is full of other records and links on to cluster 7,
    // which holds LONG.TXT: 600 bytes over clusters 8 and 9.
    let mut root = vec![0u8; 512];
    for k in 0..16 {
        let name = format!("FILL{:02}  BIN", k);
        let mut n = [0u8; 11];
        n.copy_from_slice(name.as_bytes());
        root[k * 32..k * 32 + 32].copy_from_slice(&short_entry(&n, 0x20, 3, 1));
    }
    disk.put(0, DATA_START, &root);
    let mut more = vec![0u8; 512];
    more[0..32].copy_from_slice(&short_entry(b"LONG    TXT", 0x20, 8, 600));
    disk.put(0, DATA_START + 5, &more);
    disk.put(0, DATA_START + 6, &[b'a'; 512]);
    let mut tail = vec![0u8; 512];
    tail[..88].copy_from_slice(&[b'b'; 88]);
    disk.put(0, DATA_START + 7, &tail);
    let mut fat = disk.get(0, RESERVED);
    fat[2 * 4..2 * 4 + 4].copy_from_slice(&7u32.to_le_bytes());
    fat[8 * 4..8 * 4 + 4].copy_from_slice(&9u32.to_le_bytes());
    fat[9 * 4..9 * 4 + 4].copy_from_slice(&0x0FFF_FFFFu32.to_le_bytes());
    disk.put(0, RESERVED, &fat);
    let mut fs = FAT::new(&mut disk);
    fs.mount().unwrap();
    let mut buf = vec![0u8; 1024];
    assert_eq!(fs.read_file("/long.txt", &mut buf), Ok(600));
    assert!(buf[..512].iter().all(|&b| b == b'a'));
    assert!(buf[512..600].iter().all(|&b| b == b'b'));
    assert!(buf[600..].iter().all(|&b| b == 0));
    // a buffer shorter than the file takes its front only
    let mut short = vec![7u8; 10];
    assert_eq!(fs.read_file("/LONG.TXT", &mut short), Ok(10));
    assert_eq!(short, vec![b'a'; 10]);
}

#[test]
fn fat_read_errors() {
    let mut disk = fat_disk();
    let mut fat = FAT::new(&mut disk);
    fat.mount().unwrap();
    let mut buf = [0u8; 8];
    assert_eq!(fat.read_file("/", &mut buf), Err(FSError::BadFS));
    assert_eq!(fat.read_file("/sub", &mut buf), Err(FSError::BadFS));
    assert_eq!(fat.read_file("/hello.txt/x", &mut buf), Err(FSError::BadFS));
    assert_eq!(fat.read_file("/missing", &mut buf), Err(FSError::BadFS));
}

#[test]
fn fat_write_file_records_long_name() {
    let mut disk = fat_disk();
    {
        let mut fat = FAT::new(&mut disk);
        assert_eq!(fat.write_file("/x", b"data"), Err(FSError::NotMounted));
        fat.mount().unwrap();
        assert_eq!(fat.write_file("/", b"data"), Err(FSError::BadPath));
        assert_eq!(fat.write_file("/hello.txt/x", b"data"), Err(FSError::NotADirectory));
        assert_eq!(fat.write_file("/Notes.md", b"data"), Ok(()));
        // The record names the file but gives it cluster 0, so nothing is read.
        let mut buf = [0u8; 8];
        assert_eq!(fat.read_file("/notes.md", &mut buf), Ok(0));
    }
    // The data went to the first cluster the allocator handed out (6).
    assert_eq!(&disk.get(0, DATA_START + 4)[..4], b"data");
    // The root now holds a long-name record (attribute 0x0F) then the short one.
    let root = disk.get(0, DATA_START);
    assert_eq!(root[64 + 11], 0x0F);
    assert_eq!(root[64], 0x41);
    assert_eq!(&root[96..107], b"Notes   md ");
    assert_eq!(root[96 + 11], 0x20);
    assert_eq!(u32::from_le_bytes([root[124], root[125], root[126], root[127]]), 4);
}

#[test]
fn fat_create_dir_links_parent() {
    let mut disk = fat_disk();
    {
        let mut fat = FAT::new(&mut disk);
        fat.mount().unwrap();
        assert_eq!(fat.create_dir("/"), Err(FSError::BadFS));
        assert_eq!(fat.create_dir("/newdir"), Ok(()));
        let mut buf = [0u8; 8];
        assert_eq!(fat.read_file("/newdir", &mut buf), Err(FSError::BadFS));
    }
    // The new directory got cluster 6: its first records are `.` and `..`.
    let d = disk.get(0, DATA_START + 4);
    assert_eq!(&d[0..11], b".          ");
    assert_eq!(d[11], 0x10);
    assert_eq!(&d[32..43], b"..         ");
    assert_eq!(u16::from_le_bytes([d[58], d[59]]), 2);
}

#[test]
fn fat_write_file_in_subdirectory() {
    let mut disk = fat_disk();
    let root_before = disk.get(0, DATA_START);
    {
        let mut fat = FAT::new(&mut disk);
        fat.mount().unwrap();
        assert_eq!(fat.write_file("/missing/new.txt", b"payload"), Err(FSError::BadFS));
        assert_eq!(fat.write_file("/sub/new.txt", b"payload"), Ok(()));
        let mut buf = [0u8; 8];
        assert_eq!(fat.read_file("/sub/new.txt", &mut buf), Ok(0));
        assert_eq!(fat.read_file("/new.txt", &mut buf), Err(FSError::BadFS));
    }
    // The records went into SUB's cluster, after DEEP.BIN; the root is as it was.
    assert_eq!(disk.get(0, DATA_START), root_before);
    let sub = disk.get(0, DATA_START + 2);
    assert_eq!(&sub[0..11], b"DEEP    BIN");
    assert_eq!(sub[32 + 11], 0x0F);
    assert_eq!(&sub[64..75], b"new     txt");
    assert_eq!(sub[64 + 11], 0x20);
    assert_eq!(u32::from_le_bytes([sub[92], sub[93], sub[94], sub[95]]), 7);
    assert_eq!(&disk.get(0, DATA_START + 4)[..7], b"payload");
}

#[test]
fn fat_create_dir_in_subdirectory() {
    let mut disk = fat_disk();
    {
        let mut fat = FAT::new(&mut disk);
        fat.mount().unwrap();
        assert_eq!(fat.create_dir("/hello.txt/inner"), Err(FSError::BadFS));
        assert_eq!(fat.create_dir("/sub/inner"), Ok(()));
    }
    // The new directory (cluster 6) points back at SUB (cluster 4).
    let d = disk.get(0, DATA_START + 4);
    assert_eq!(&d[32..43], b"..         ");
    assert_eq!(u16::from_le_bytes([d[58], d[59]]), 4);
    // SUB holds its records, the short one naming cluster 6.
    let sub = disk.get(0, DATA_START + 2);
    assert_eq!(sub[32 + 11], 0x0F);
    assert_eq!(&sub[64..75], b"inner      ");
    assert_eq!(sub[64 + 11], 0x10);
    assert_eq!(u16::from_le_bytes([sub[64 + 26], sub[64 + 27]]), 6);
}

#[test]
fn fat_failed_reads_are_reported() {
    let mut disk = fat_disk();
    disk.fail_at = Some((0, DATA_START + 2));
    let mut fat = FAT::new(&mut disk);
    fat.mount().unwrap();
    let mut buf = [0u8; 8];
    assert_eq!(fat.read_file("/sub/deep.bin", &mut buf), Err(FSError::ReadError));
    assert_eq!(fat.write_file("/sub/new.txt", b"x"), Err(FSError::ReadError));
    assert_eq!(fat.create_dir("/sub/inner/x"), Err(FSError::ReadError));
    assert_eq!(fat.read_file("/hello.txt", &mut buf), Ok(5));
}

#[test]
fn fat_allocation_refuses_too_many_clusters() {
    let mut disk = fat_disk();
    let table_before = disk.get(RESERVED as usize, 0);
    {
        let mut fat = FAT::new(&mut disk);
        fat.mount().unwrap();
        // One table sector holds 128 entries, six of them in use.
        assert_eq!(fat.allocate_clusters(123), Err(FSError::WriteError));
    }
    assert_eq!(disk.get(RESERVED as usize, 0), table_before);
}

#[test]
fn fat_finds_names_beyond_ascii() {
    let mut disk = fat_disk();
    let mut fat = FAT::new(&mut disk);
    fat.mount().unwrap();
    assert_eq!(fat.write_file("/\u{c9}crit.txt", b"e"), Ok(()));
    assert_eq!(fat.write_file("/\u{1F600}.txt", b"s"), Ok(()));
    let mut buf = [0u8; 4];
    // Both long names decode back to the names written (the short records
    // name cluster 0, so nothing is read).
    assert_eq!(fat.read_file("/\u{c9}CRIT.TXT", &mut buf), Ok(0));
    assert_eq!(fat.read_file("/\u{1F600}.txt", &mut buf), Ok(0));
    // Only ASCII letters are folded.
    assert_eq!(fat.read_file("/\u{e9}crit.txt", &mut buf), Err(FSError::BadFS));
}

#[test]
fn fat_allocation_chains_clusters() {
    let mut disk = fat_disk();
    {
        let mut fat = FAT::new(&mut disk);
        fat.mount().unwrap();
        assert_eq!(fat.allocate_clusters(2), Ok(6));
    }
    let table = disk.get(RESERVED as usize, 0);
    assert_eq!(u32::from_le_bytes([table[24], table[25], table[26], table[27]]), 7);
    assert_eq!(u32::from_le_bytes([table[28], table[29], table[30], table[31]]), 0x0FFF_FFFF);
}

#[test]
fn short_names() {
    assert_eq!(&generate_8_3("readme.txt"), b"readme  txt");
    assert_eq!(&generate_8_3("averylongname.text.gz"), b"averylontex");
    assert_eq!(&generate_8_3("noext"), b"noext      ");
    assert_eq!(parse_8_3_name(b"HELLO   TXT"), "HELLO.TXT");
    assert_eq!(parse_8_3_name(b"SUB        "), "SUB");
}

#[test]
fn long_name_pieces() {
    let chunks = utf16_chunks("abc");
    assert_eq!(chunks.len(), 1);
    assert_eq!(chunks[0][0], 'a' as u16);
    assert_eq!(chunks[0][3], 0);
    assert_eq!(chunks[0][4], 0xFFFF);
    assert_eq!(utf16_chunks("0123456789abc").len(), 1);
    assert_eq!(utf16_chunks("0123456789abcd").len(), 2);
    assert_eq!(utf16_chunks("").len(), 0);
    // A character beyond the basic plane takes two units.
    assert_eq!(utf16_chunks("\u{1F600}")[0][1], 0xDE00);
}

#[test]
fn checksum_of_short_name() {
    // Rotate-right-and-add over the eleven bytes.
    let mut sum = 0u8;
    for &b in b"README  TXT" {
        sum = (((sum & 1) << 7) | (sum >> 1)).wrapping_add(b);
    }
    assert_eq!(lfn_checksum(b"README  TXT"), sum);
}

#[test]
fn records_built_are_found_by_scan() {
    let short = generate_8_3("My File.txt");
    let recs = build_dir_records("My File.txt", &short, 0x20, 9, 42);
    assert_eq!(recs.len(), 32 * 2);
    let mut cluster = vec![0u8; 512];
    let slot = find_free_run(&cluster, recs.len() / 32).unwrap();
    cluster[slot..slot + recs.len()].copy_from_slice(&recs);
    match scan_cluster(&cluster, "my file.txt") {
        ClusterScan::Found(e) => {
            assert_eq!(e.full_cluster(), 9);
            assert_eq!(e.size, 42);
            assert!(!e.is_directory());
        },
        _ => panic!("not found"),
    }
    assert!(matches!(scan_cluster(&cluster, "other"), ClusterScan::End));
    let full = vec![1u8; 64];
    assert!(matches!(scan_cluster(&full, "x"), ClusterScan::Exhausted));
}

#[test]
fn free_runs() {
    let mut buf = vec![0u8; 128];
    buf[0] = b'A';
    buf[64] = 0xE5;
    assert_eq!(find_free_run(&buf, 2), Some(32));
    assert_eq!(find_free_run(&buf, 3), Some(32));
    assert_eq!(find_free_run(&buf, 4), None);
}

fn entry(name: &str, typ: u8, start: u32, size: u16) -> IndexEntry {
    let mut n = [0u8; 48];
    n[..name.len()].copy_from_slice(name.as_bytes());
    IndexEntry { name: n, entry_type: typ, perms: 0, timestamp: 0, start_block: start, sz_bytes: size }
}

#[test]
fn sfs_index_lookup() {
    let mut area = IndexArea { entries: vec![] };
    area.insert_entry(&entry("a/b", 0x12, 3, 300)).unwrap();
    area.insert_entry(&entry("a", 0x11, 0, 0)).unwrap();
    assert_eq!(area.find_by_name("a").unwrap().entry_type, 0x11);
    assert!(area.find_by_name("zz").is_none());
    assert_eq!(area.entries[0].name_str(), "a/b");
    // 300 bytes in 128-byte blocks take blocks 3, 4 and 5.
    assert!(!area.is_block_free(5, 128));
    assert!(area.is_block_free(6, 128));
    assert!(area.is_block_free(2, 128));
    // the largest block length the rounding can take: size plus length minus one is u64::MAX
    let mut big = IndexArea { entries: vec![] };
    big.insert_entry(&entry("big", 0x12, 9, 65535)).unwrap();
    assert!(!big.is_block_free(9, u64::MAX - 65534));
    assert!(big.is_block_free(10, u64::MAX - 65534));
}

#[test]
fn sfs_index_bytes_round_trip() {
    let mut raw = vec![0u8; 128];
    raw[0] = b'f';
    raw[48] = 0x12;
    raw[58..62].copy_from_slice(&7u32.to_le_bytes());
    raw[62..64].copy_from_slice(&99u16.to_le_bytes());
    let area = IndexArea::from_bytes(&raw).unwrap();
    assert_eq!(area.entries.len(), 2);
    assert_eq!(area.entries[0].start_block, 7);
    assert_eq!(area.entries[0].sz_bytes, 99);
    assert!(!area.entries[1].is_valid());
    // A length with bit 6 set is refused.
    assert!(IndexArea::from_bytes(&raw[..64]).is_none());
}

fn superblock() -> SuperBlock {
    SuperBlock {
        last_alt_time: 0,
        data_area_sz: 16,
        idx_area_sz: 128,
        magic: [0x53, 0x46, 0x53],
        ver: 0x10,
        block_count: 32,
        rsv_area_sz: 1,
        block_sz: 2,
        checksum: 0,
    }
}

#[test]
fn superblock_sizes() {
    let sb = superblock();
    assert_eq!(sb.block_sz_bytes(), 512);
    assert_eq!(sb.total_bytes(), 32 * 512);
    assert_eq!(sb.index_area_offset(), 32 * 512 - 128);
    assert!(!sb.validate_superblock());
    // with a wrong magic the check answers false whatever the block size
    let mut odd = superblock();
    odd.magic = [0, 0, 0];
    odd.block_sz = 255;
    assert!(!odd.validate_superblock());
    assert!(SuperBlock::from_bytes(&[0u8; 10]).is_none());
    assert!(SuperBlock::from_bytes(&[0u8; 0x200]).is_none());
}

#[test]
fn sfs_create_and_find() {
    let mut disk = MemDisk::new();
    let mut sb = superblock();
    let mut fs = SFS::new(&mut disk, &mut sb);
    assert_eq!(fs.create_dir("docs"), Err(FSError::WriteError));
    assert_eq!(fs.unmount(), Err(FSError::NotMounted));
    assert_eq!(fs.mount(), Ok(()));
    assert_eq!(fs.mount(), Err(FSError::AlreadyMounted));
    assert_eq!(fs.create_dir("docs"), Ok(()));
    assert_eq!(fs.create_dir("docs"), Err(FSError::AlreadyExists));
    assert_eq!(fs.create_dir(&"x".repeat(48)), Err(FSError::NameTooLong));
    assert!(fs.parent_exists("docs/readme"));
    assert!(fs.parent_exists("top"));
    assert!(!fs.parent_exists("nope/readme"));
    assert_eq!(fs.list_dir("").len(), 1);
    assert_eq!(fs.list_dir("docs").len(), 0);
    assert_eq!(fs.remove_file("docs"), Err(FSError::WriteError));
    assert_eq!(fs.remove_dir("docs"), Err(FSError::WriteError));
    let mut buf = [0u8; 4];
    assert_eq!(fs.read_file("docs", &mut buf), Err(FSError::BadFile));
    assert_eq!(fs.read_file("none", &mut buf), Err(FSError::NotFound));
    assert_eq!(fs.unmount(), Ok(()));
}

#[test]
fn sfs_mount_refusals() {
    // a block size field above 248
    let mut disk = MemDisk::new();
    let mut sb = superblock();
    sb.block_sz = 249;
    assert_eq!(SFS::new(&mut disk, &mut sb).mount(), Err(FSError::BadFS));
    // a layout whose index area is larger than the filesystem
    let mut disk = MemDisk::new();
    let mut sb = superblock();
    sb.idx_area_sz = 32 * 512 + 1;
    assert_eq!(SFS::new(&mut disk, &mut sb).mount(), Err(FSError::BadFS));
    // an index length with bit 6 set
    let mut disk = MemDisk::new();
    let mut sb = superblock();
    sb.idx_area_sz = 64;
    assert_eq!(SFS::new(&mut disk, &mut sb).mount(), Err(FSError::BadFS));
    // an unreadable device
    let mut disk = MemDisk::new();
    disk.fail_reads = true;
    let mut sb = superblock();
    assert_eq!(SFS::new(&mut disk, &mut sb).mount(), Err(FSError::ReadError));
}

#[test]
fn shfs_header_reserved_area() {
    let h = Header::new([7u8; 16], 8, 65531);
    assert_eq!(h.reserved_area_sz, 327675);
    assert_eq!(h.piece_count, 65531);
    assert_eq!(h.used_piece_count, 0);
    assert_eq!(Header::new([0u8; 16], 8, 0).reserved_area_sz, 20);
}

#[test]
fn sfs_write_file_finds_free_blocks() {
    let mut disk = MemDisk::new();
    let mut sb = superblock();
    let mut fs = SFS::new(&mut disk, &mut sb);
    let mut buf = [0u8; 4];
    assert_eq!(fs.write_file("f", b"x"), Err(FSError::BadFS));
    assert_eq!(fs.read_file("f", &mut buf), Err(FSError::BadFS));
    fs.mount().unwrap();
    assert_eq!(fs.find_free_data_blocks(2), Some(1));
    assert_eq!(fs.write_file("f", b"hello"), Ok(()));
    assert_eq!(fs.write_file("f", b"again"), Err(FSError::AlreadyExists));
    // Block 1 is taken by `f` now; the next run starts at 2.
    assert_eq!(fs.find_free_data_blocks(1), Some(2));
    drop(fs);
    assert_eq!(&disk.get(0, 1)[..5], b"hello");
}

#[test]
fn block_device_read_write_seek() {
    let mut dev = BlockDev::from_data(vec![1, 2, 3, 4, 5]);
    let mut buf = [0u8; 3];
    assert_eq!(dev.read(&mut buf).ok(), Some(3));
    assert_eq!(buf, [1, 2, 3]);
    assert_eq!(dev.read(&mut buf).ok(), Some(2));
    assert_eq!(buf, [4, 5, 3]);
    assert_eq!(dev.read(&mut buf).ok(), Some(0));
    assert_eq!(dev.seek(SeekFrom::Start(1)).ok(), Some(1));
    assert_eq!(dev.write(&[9, 9]).ok(), Some(2));
    assert_eq!(dev.seek(SeekFrom::Current(-2)).ok(), Some(1));
    assert_eq!(dev.read(&mut buf).ok(), Some(3));
    assert_eq!(buf, [9, 9, 4]);
    assert!(dev.seek(SeekFrom::Start(6)).is_err());
    assert!(dev.seek(SeekFrom::End(-6)).is_err());
    assert_eq!(dev.seek(SeekFrom::End(-1)).ok(), Some(4));
    assert!(dev.seek(SeekFrom::Current(2)).is_err());
    assert!(dev.flush().is_ok());
    let mut empty = BlockDev::new(2);
    assert_eq!(empty.read(&mut buf).ok(), Some(2));
    assert_eq!(&buf[..2], &[0, 0]);
}

#[test]
fn ext2_magic_is_checked() {
    let mut data = vec![0u8; 4096];
    assert!(mount_ext2(BlockDev::from_data(data.clone())).is_err());
    data[1024 + 56] = 0x53;
    data[1024 + 57] = 0xEF;
    data[1024 + 40] = 2;
    assert!(mount_ext2(BlockDev::from_data(data)).is_ok());
}
