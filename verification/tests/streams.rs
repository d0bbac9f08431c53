use cheats::io::Stream;
use cheats::ReadWrite;

#[test]
fn read() {
    let mut stream = Stream::new();
    assert_eq!(stream.write(b"lorem"), 5);
    let bytes = stream.read(8);
    assert_eq!(bytes, b"lorem".to_vec());
    assert_eq!(stream.read(8), Vec::<u8>::new());
}

#[test]
fn write() {
    let mut stream = Stream::new();
    assert_eq!(stream.write(b"lorem"), 5);
    let byte_count = stream.write(b" ipsum");
    assert_eq!(byte_count, 6);
    assert_eq!(stream.read(usize::MAX), b"lorem ipsum".to_vec());
}

#[test]
fn read_drains_from_the_front() {
    let mut stream = Stream::new();
    stream.write(b"abcdef");
    assert_eq!(stream.read(2), b"ab".to_vec());
    assert_eq!(stream.read(3), b"cde".to_vec());
    stream.write(b"gh");
    assert_eq!(stream.read(10), b"fgh".to_vec());
}

#[test]
fn flush_changes_nothing() {
    let mut stream = Stream::new();
    stream.write(b"keep");
    stream.flush();
    assert_eq!(stream.read(usize::MAX), b"keep".to_vec());
}
