use terminal_renderer::buffer::Buffer;

#[test]
fn new_buffer_is_filled_with_default() {
    let b = Buffer::new([1u8, 2, 3], 4, 3);
    assert_eq!(b.width(), 4);
    assert_eq!(b.height(), 3);
    for y in 0..3 {
        assert_eq!(b.row(y).len(), 4);
        for x in 0..4 {
            assert_eq!(b.get(y, x), [1, 2, 3]);
        }
    }
}

#[test]
fn set_changes_one_cell() {
    let mut b = Buffer::new(0u32, 3, 2);
    b.set(1, 2, 7);
    assert_eq!(b.get(1, 2), 7);
    assert_eq!(b.get(0, 2), 0);
    assert_eq!(b.get(1, 1), 0);
    assert_eq!(b[1], [0, 0, 7]);
    assert_eq!(b[0], [0, 0, 0]);
}

#[test]
fn empty_buffer() {
    let b = Buffer::new(0u8, 0, 0);
    assert_eq!(b.width(), 0);
    assert_eq!(b.height(), 0);
    let c = Buffer::new(0u8, 5, 0);
    assert_eq!(c.height(), 0);
    let d = Buffer::new(9u8, 0, 2);
    assert_eq!(d.row(1).len(), 0);
}
