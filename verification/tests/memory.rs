use velos::memory::Memory;

#[test]
fn sizes_are_written_in_the_largest_unit() {
    let text = |bytes: u64| Memory::from_bytes(bytes).render();
    assert_eq!(text(0), "0");
    assert_eq!(text(1), "1");
    assert_eq!(text(1024), "1K");
    assert_eq!(text(1536), "1536");
    assert_eq!(text(512 * 1024 * 1024), "512M");
    assert_eq!(text(16 * 1024 * 1024 * 1024), "16G");
    assert_eq!(text(1024 * 1024 * 1024 + 1024), "1048577K");
}

#[test]
fn sizes_read_back() {
    for bytes in [0, 1, 1024, 1536, 3 << 20, 8 << 30, u64::MAX] {
        let m = Memory::from_bytes(bytes);
        assert_eq!(Memory::parse(&m.render()), Some(m));
        assert_eq!(m.bytes(), bytes);
    }
}

#[test]
fn what_is_no_size_is_refused() {
    for text in ["", "G", "8g", "8 G", "-1G", "8GB", "1.5G", "17179869184G"] {
        assert_eq!(Memory::parse(text), None, "{text}");
    }
    assert_eq!(
        Memory::parse("17179869183G"),
        Some(Memory::from_bytes(17179869183 << 30))
    );
}
