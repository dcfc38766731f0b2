use anyhow::Result;
use bytes::{Buf, BufMut, BytesMut};

#[test]
fn byte_it_works() -> Result<()> {
    let mut bb = bytes::BytesMut::with_capacity(10);
    println!("chunk {:?}", bb.chunk());
    println!("capacity {}", bb.capacity());
    bb.put(&b"hello"[..]);
    println!("chunk {:?}", bb.chunk());
    println!("remaining {}", bb.remaining());
    bb.advance(5);
    println!("capacity {}", bb.capacity());
    println!("chunk {:?}", bb.chunk());
    println!("remaining {}", bb.remaining());
    bb.put(&b"hello"[..]);
    bb.put(&b"hello"[..]);
    println!("chunk {:?}", bb.chunk());
    println!("capacity {}", bb.capacity());
    println!("remaining {}", bb.remaining());

    let mut buf = BytesMut::with_capacity(11);
    buf.put(&b"hello world"[..]);

    let other = buf.split();

    assert!(buf.is_empty());
    assert_eq!(0, buf.capacity());
    assert_eq!(11, other.capacity());
    assert_eq!(other, b"hello world"[..]);

    Ok(())
}
