use kernel_core::error::DevError;
use kernel_core::net::{NetBufPool, NetBufPtr};

#[test]
fn pool_exhaustion_and_reuse() {
    let mut pool = NetBufPool::new(2, 1526).unwrap();
    let b1 = pool.alloc_buf().unwrap();
    let b2 = pool.alloc_buf().unwrap();
    assert_ne!(b1.pool_offset(), b2.pool_offset());
    assert!(pool.alloc_buf().is_none());
    let freed = b1.pool_offset();
    assert_eq!(pool.dealloc(b1), Ok(()));
    let b3 = pool.alloc_buf().unwrap();
    assert_eq!(b3.pool_offset(), freed);
    assert_eq!(pool.free_count(), 0);
    drop(b2);
}

#[test]
fn pool_offsets_are_multiples() {
    let mut pool = NetBufPool::new(4, 2048).unwrap();
    assert_eq!(pool.capacity(), 4);
    assert_eq!(pool.buffer_len(), 2048);
    let mut seen = vec![];
    while let Some(b) = pool.alloc_buf() {
        assert_eq!(b.pool_offset() % 2048, 0);
        assert_eq!(b.capacity(), 2048);
        assert_eq!(b.header_len(), 0);
        seen.push(b.pool_offset());
    }
    seen.sort();
    assert_eq!(seen, vec![0, 2048, 4096, 6144]);
}

#[test]
fn pool_rejects_bad_parameters() {
    assert_eq!(NetBufPool::new(0, 1526).err(), Some(DevError::InvalidParam));
    assert_eq!(NetBufPool::new(2, 1525).err(), Some(DevError::InvalidParam));
    assert_eq!(NetBufPool::new(2, 65536).err(), Some(DevError::InvalidParam));
    assert_eq!(NetBufPool::new(usize::MAX, 2000).err(), Some(DevError::NoMemory));
}

#[test]
fn double_free_is_refused() {
    let mut pool = NetBufPool::new(2, 1526).unwrap();
    let b = pool.alloc_buf().unwrap();
    let p = b.into_buf_ptr();
    let again = pool.from_buf_ptr(NetBufPtr::new(p.raw_addr(), p.buf_ptr(), p.packet_len()));
    assert_eq!(pool.dealloc(pool.from_buf_ptr(p)), Ok(()));
    assert_eq!(pool.dealloc(again), Err(DevError::InvalidParam));
    assert_eq!(pool.free_count(), 2);
}

#[test]
fn buf_ptr_round_trip() {
    let mut pool = NetBufPool::new(3, 1600).unwrap();
    let mut b = pool.alloc_buf().unwrap();
    b.set_header_len(14);
    b.set_packet_len(100);
    let off = b.pool_offset();
    let p = b.into_buf_ptr();
    assert_eq!(p.raw_addr(), off);
    assert_eq!(p.buf_ptr(), off + 14);
    assert_eq!(p.packet_len(), 100);
    let r = pool.from_buf_ptr(p);
    assert_eq!(r.pool_offset(), off);
    assert_eq!(r.header_len(), 14);
    assert_eq!(r.packet_len(), 100);
    assert_eq!(r.capacity(), 1600);
    let boxed = pool.alloc_boxed().unwrap();
    assert_eq!(boxed.packet_len(), 0);
}

#[test]
fn buffer_contents() {
    let mut pool = NetBufPool::new(2, 1526).unwrap();
    let mut b = pool.alloc_buf().unwrap();
    b.set_header_len(2);
    b.set_packet_len(3);
    pool.write_buf(&b, 0, &[9, 8, 1, 2, 3, 4]);
    assert_eq!(pool.header(&b), vec![9, 8]);
    assert_eq!(pool.packet(&b), vec![1, 2, 3]);
    assert_eq!(pool.packet_with_header(&b), vec![9, 8, 1, 2, 3]);
    assert_eq!(pool.raw_buf(&b).len(), 1526);
    assert_eq!(pool.raw_buf(&b)[5], 4);
}
