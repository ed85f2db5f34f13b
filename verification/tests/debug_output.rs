use slab_allocator::memory::{decimal_digits, ByteSink, SlabMemory};

struct VecSink {
    bytes: Vec<u8>,
}

impl ByteSink for VecSink {
    fn write_byte(&mut self, byte: u8) {
        self.bytes.push(byte);
    }
}

#[test]
fn decimal_digits_render_exactly() {
    assert_eq!(decimal_digits(0), b"0".to_vec());
    assert_eq!(decimal_digits(7), b"7".to_vec());
    assert_eq!(decimal_digits(10), b"10".to_vec());
    assert_eq!(decimal_digits(12345), b"12345".to_vec());
    assert_eq!(decimal_digits(1024), b"1024".to_vec());
}

#[test]
fn debug_print_reports_every_arena() {
    let m = SlabMemory::initialize(1 << 20, 8192);
    let mut sink = VecSink { bytes: Vec::new() };
    m.debug_print(&mut sink);
    let text = String::from_utf8(sink.bytes).unwrap();
    let expected = "arena 0: 128 free\n\
                    arena 1: 64 free\n\
                    arena 2: 32 free\n\
                    arena 3: 16 free\n\
                    arena 4: 8 free\n\
                    arena 5: 4 free\n\
                    arena 6: 2 free\n\
                    arena 7: 1 free\n";
    assert_eq!(text, expected);
}

#[test]
fn debug_print_tracks_allocations() {
    let mut m = SlabMemory::initialize(1 << 20, 8192);
    let p = m.allocate(8, 1);
    assert!(p != 0);
    let mut sink = VecSink { bytes: Vec::new() };
    m.debug_print(&mut sink);
    let text = String::from_utf8(sink.bytes).unwrap();
    assert!(text.starts_with("arena 0: 127 free\n"));
}
