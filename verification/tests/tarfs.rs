use heineos::tarfs::{FileHandle, FsError, SeekMode, TarFs};

fn header(name: &str, size: usize) -> [u8; 512] {
    let mut h = [0u8; 512];
    h[..name.len()].copy_from_slice(name.as_bytes());
    h[100..108].copy_from_slice(b"0000644\0");
    h[108..116].copy_from_slice(b"0000000\0");
    h[116..124].copy_from_slice(b"0000000\0");
    let size_field = format!("{:011o}\0", size);
    h[124..136].copy_from_slice(size_field.as_bytes());
    h[136..148].copy_from_slice(b"00000000000\0");
    h[156] = b'0';
    h[257..263].copy_from_slice(b"ustar\0");
    h[263..265].copy_from_slice(b"00");
    for b in &mut h[148..156] {
        *b = b' ';
    }
    let sum: u32 = h.iter().map(|&b| b as u32).sum();
    let chk = format!("{:06o}\0 ", sum);
    h[148..156].copy_from_slice(chk.as_bytes());
    h
}

fn archive(files: &[(&str, &[u8])]) -> &'static [u8] {
    let mut out = Vec::new();
    for (name, data) in files {
        out.extend_from_slice(&header(name, data.len()));
        out.extend_from_slice(data);
        let pad = (512 - data.len() % 512) % 512;
        out.extend(std::iter::repeat(0u8).take(pad));
    }
    out.extend(std::iter::repeat(0u8).take(1024));
    Box::leak(out.into_boxed_slice())
}

#[test]
fn invalid_archive_is_refused() {
    assert!(TarFs::new(Box::leak(vec![1u8; 100].into_boxed_slice())).is_none());
}

#[test]
fn open_finds_files_with_or_without_slash() {
    let mut fs = TarFs::new(archive(&[("hello.txt", b"Hello, world!"), ("doom.wad", b"IWAD")])).unwrap();
    let h1 = fs.open("hello.txt").unwrap();
    let h2 = fs.open("/doom.wad").unwrap();
    assert_eq!(h1, FileHandle(0));
    assert_eq!(h2, FileHandle(1));
    assert_eq!(fs.size(h1), Ok(13));
    assert_eq!(fs.size(h2), Ok(4));
    assert_eq!(fs.open("missing"), Err(FsError::FileNotFound));
    assert_eq!(fs.size(FileHandle(9)), Err(FsError::InvalidHandle));
}

#[test]
fn read_advances_until_end_of_file() {
    let mut fs = TarFs::new(archive(&[("a", b"abcdefgh")])).unwrap();
    let h = fs.open("a").unwrap();
    let mut buf = vec![0u8; 5];
    assert_eq!(fs.read(h, &mut buf), Ok(5));
    assert_eq!(&buf, b"abcde");
    assert_eq!(fs.read(h, &mut buf), Ok(3));
    assert_eq!(&buf[..3], b"fgh");
    assert_eq!(&buf[3..], b"de");
    assert_eq!(fs.read(h, &mut buf), Err(FsError::EndOfFile));
    assert_eq!(fs.read(FileHandle(5), &mut buf), Err(FsError::InvalidHandle));
}

#[test]
fn seek_clamps_to_file() {
    let mut fs = TarFs::new(archive(&[("a", b"0123456789")])).unwrap();
    let h = fs.open("a").unwrap();
    assert_eq!(fs.seek(h, 4, SeekMode::Start), Ok(4));
    assert_eq!(fs.seek(h, 3, SeekMode::Current), Ok(7));
    assert_eq!(fs.seek(h, -2, SeekMode::End), Ok(8));
    assert_eq!(fs.seek(h, 100, SeekMode::Current), Ok(10));
    assert_eq!(fs.seek(h, -100, SeekMode::Current), Ok(0));
    assert_eq!(fs.seek(h, isize::MIN, SeekMode::End), Ok(0));
    assert_eq!(fs.seek(h, 0, SeekMode::Current), Ok(0));
    assert_eq!(fs.seek(FileHandle(3), 0, SeekMode::Start), Err(FsError::InvalidHandle));
    let mut buf = vec![0u8; 2];
    fs.seek(h, -3, SeekMode::End).unwrap();
    assert_eq!(fs.read(h, &mut buf), Ok(2));
    assert_eq!(&buf, b"78");
}
