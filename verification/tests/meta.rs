use cubesat_protocols::meta::{read_meta, write_meta};

#[test]
fn meta_text_of_a_file() {
    assert_eq!(write_meta(3, Some(0o600)), b"num_chunks=3\nmode=600\n".to_vec());
    assert_eq!(write_meta(0, None), b"num_chunks=0\nmode=\n".to_vec());
    assert_eq!(write_meta(120, Some(0)), b"num_chunks=120\nmode=0\n".to_vec());
    assert_eq!(
        write_meta(u32::MAX, Some(u32::MAX)),
        b"num_chunks=4294967295\nmode=37777777777\n".to_vec()
    );
    assert_eq!(write_meta(10, Some(8)), b"num_chunks=10\nmode=10\n".to_vec());
}

#[test]
fn meta_text_reads_back() {
    for n in [0u32, 1, 9, 10, 99, 100, 4096, u32::MAX] {
        for mode in [None, Some(0u32), Some(7), Some(8), Some(0o644), Some(0o100644), Some(u32::MAX)] {
            assert_eq!(read_meta(&write_meta(n, mode)), Some((n, mode)));
        }
    }
}

#[test]
fn meta_text_may_carry_leading_zeros() {
    assert_eq!(read_meta(b"num_chunks=007\nmode=0600\n"), Some((7, Some(0o600))));
}

#[test]
fn other_text_is_no_meta_text() {
    assert_eq!(read_meta(b""), None);
    assert_eq!(read_meta(b"num_chunks=3\nmode=600"), None);
    assert_eq!(read_meta(b"num_chunks=3\nmode=600\n\n"), None);
    assert_eq!(read_meta(b"num_chunks=\nmode=600\n"), None);
    assert_eq!(read_meta(b"num_chunks=3\n"), None);
    assert_eq!(read_meta(b"num_chunks=3mode=600\n"), None);
    assert_eq!(read_meta(b"num_chunks=3\nmode=608\n"), None);
    assert_eq!(read_meta(b"num_chunks=3\nmode=9\n"), None);
    assert_eq!(read_meta(b"num_chunks=-3\nmode=600\n"), None);
    assert_eq!(read_meta(b"num_chunks=3 \nmode=600\n"), None);
    assert_eq!(read_meta(b"chunks=3\nmode=600\n"), None);
    assert_eq!(read_meta(b"Num_chunks=3\nmode=600\n"), None);
    assert_eq!(read_meta(b"num_chunks=3\r\nmode=600\r\n"), None);
    assert_eq!(read_meta(b"mode=600\nnum_chunks=3\n"), None);
}

#[test]
fn numbers_beyond_32_bits_are_no_meta_text() {
    assert_eq!(read_meta(b"num_chunks=4294967295\nmode=\n"), Some((u32::MAX, None)));
    assert_eq!(read_meta(b"num_chunks=4294967296\nmode=\n"), None);
    assert_eq!(read_meta(b"num_chunks=99999999999999999999999999\nmode=\n"), None);
    assert_eq!(read_meta(b"num_chunks=1\nmode=37777777777\n"), Some((1, Some(u32::MAX))));
    assert_eq!(read_meta(b"num_chunks=1\nmode=40000000000\n"), None);
    assert_eq!(read_meta(b"num_chunks=1\nmode=7777777777777777777777777\n"), None);
}
