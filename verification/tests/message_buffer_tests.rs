use cui_gaming::{
    div_ceil, Canvas, DrawableUnit, MessageBuffer, MessageLine, Pair, Rectangle, UiCanvas,
    UnitColor,
};

fn border() -> DrawableUnit {
    DrawableUnit::from_double_half_char('#', '#', UnitColor::White)
}

#[test]
fn test_append_message() {
    let units = [
        DrawableUnit::from_double_half_char(' ', ' ', UnitColor::White),
        DrawableUnit::from_double_half_char(' ', ' ', UnitColor::Red),
        DrawableUnit::from_double_half_char(' ', ' ', UnitColor::Yellow),
    ];
    let mut message_line = MessageLine::empty_growable_line(5);
    message_line.append_message(&units);
    {
        let current_units = message_line.units();
        assert_eq!(&units[..], current_units.as_slice());
    }
    message_line.append_message(&units);
    {
        let current_units = message_line.units();
        assert_eq!(units[1], current_units[0]);
        assert_eq!(units[2], current_units[1]);
        assert_eq!(units[0], current_units[2]);
        assert_eq!(units[1], current_units[3]);
        assert_eq!(units[2], current_units[4]);
    }
}

#[test]
fn test_div_ceil() {
    assert_eq!(3, div_ceil(6, 2));
    assert_eq!(3, div_ceil(5, 2));
    assert_eq!(2, div_ceil(4, 2));
    //
    assert_eq!(4, div_ceil(4, 1));
    assert_eq!(1, div_ceil(1, 1));
}

#[test]
fn buffer_evicts_oldest_line_first() {
    let mut buffer = MessageBuffer::new(2, 10, border());
    buffer.add_text("aa", UnitColor::White);
    buffer.add_newline();
    buffer.add_text("bb", UnitColor::White);
    buffer.add_newline();
    buffer.add_text("cc", UnitColor::White);
    buffer.add_newline();
    assert_eq!(2, buffer.line_count());
    assert_eq!('b', buffer.line_units_at(0)[0].left);
    assert_eq!('c', buffer.line_units_at(1)[0].left);
}

#[test]
fn line_ring_never_exceeds_length_limit() {
    let mut buffer = MessageBuffer::new(3, 4, border());
    buffer.add_text("abcdefghij", UnitColor::White);
    assert_eq!(1, buffer.line_count());
    let cells = buffer.line_units_at(0);
    assert_eq!(4, cells.len());
    assert_eq!('c', cells[0].left);
    assert_eq!(Some('j'), cells[3].right);
}

#[test]
fn add_text_grows_last_line() {
    let mut buffer = MessageBuffer::new(3, 10, border());
    buffer.add_text("ab", UnitColor::White);
    buffer.add_text("cd", UnitColor::White);
    assert_eq!(1, buffer.line_count());
    let cells = buffer.line_units_at(0);
    assert_eq!(2, cells.len());
    assert_eq!('a', cells[0].left);
    assert_eq!('c', cells[1].left);
}

#[test]
fn try_add_text_rejects_control_characters() {
    let mut buffer = MessageBuffer::new(3, 10, border());
    assert!(buffer.try_add_text("ab", UnitColor::White));
    assert!(!buffer.try_add_text("c\td", UnitColor::White));
    assert_eq!(1, buffer.line_count());
    let cells = buffer.line_units_at(0);
    assert_eq!(1, cells.len());
    assert_eq!('a', cells[0].left);
    assert_eq!(Some('b'), cells[0].right);
}

#[test]
fn add_newline_seals_then_appends_empty() {
    let mut buffer = MessageBuffer::new(3, 10, border());
    buffer.add_text("ab", UnitColor::White);
    buffer.add_newline();
    assert_eq!(1, buffer.line_count());
    buffer.add_newline();
    assert_eq!(2, buffer.line_count());
    assert_eq!(0, buffer.line_units_at(1).len());
    buffer.add_text("cd", UnitColor::White);
    assert_eq!(3, buffer.line_count());
    assert_eq!('c', buffer.line_units_at(2)[0].left);
}

#[test]
fn pagination_wraps_single_line_across_rows() {
    let mut buffer = MessageBuffer::new(5, 30, border());
    buffer.add_text("abcdefghijklmnopqrstuvwx", UnitColor::White);
    let mut ui = UiCanvas::from_canvas(Canvas::<i32>::empty_canvas());
    let region = Rectangle::from_corners(Pair::new(0usize, 0usize), Pair::new(6usize, 10usize));
    buffer.draw_message(&mut ui, region, 1);
    let canvas = ui.into_canvas();
    // The interior is 5 columns wide, so 12 cells wrap onto exactly 3 rows,
    // bottom-anchored at interior row 9.
    assert_eq!('a', canvas.slot_at(Pair::new(1usize, 7usize)).unwrap().0.left);
    assert_eq!('i', canvas.slot_at(Pair::new(5usize, 7usize)).unwrap().0.left);
    assert_eq!('k', canvas.slot_at(Pair::new(1usize, 8usize)).unwrap().0.left);
    assert_eq!('u', canvas.slot_at(Pair::new(1usize, 9usize)).unwrap().0.left);
    assert_eq!('w', canvas.slot_at(Pair::new(2usize, 9usize)).unwrap().0.left);
    assert_eq!(' ', canvas.slot_at(Pair::new(3usize, 9usize)).unwrap().0.left);
    // The row above the three wrapped rows stays blank.
    assert_eq!(' ', canvas.slot_at(Pair::new(1usize, 6usize)).unwrap().0.left);
    // The border ring shows the border unit.
    assert_eq!('#', canvas.slot_at(Pair::new(0usize, 0usize)).unwrap().0.left);
    assert_eq!('#', canvas.slot_at(Pair::new(6usize, 10usize)).unwrap().0.left);
}

#[test]
fn pagination_clips_overflowing_history() {
    let mut buffer = MessageBuffer::new(30, 10, border());
    let mut i: usize = 0;
    while i < 20 {
        buffer.add_text("zz", UnitColor::White);
        buffer.add_newline();
        i += 1;
    }
    let mut ui = UiCanvas::from_canvas(Canvas::<i32>::empty_canvas());
    let region = Rectangle::from_corners(Pair::new(0usize, 0usize), Pair::new(6usize, 4usize));
    buffer.draw_message(&mut ui, region, 0);
    let canvas = ui.into_canvas();
    // Only the newest lines fit the three interior rows; nothing panics and
    // the newest line sits on the bottom interior row.
    assert_eq!('z', canvas.slot_at(Pair::new(1usize, 3usize)).unwrap().0.left);
    assert_eq!('z', canvas.slot_at(Pair::new(1usize, 1usize)).unwrap().0.left);
    assert_eq!(' ', canvas.slot_at(Pair::new(2usize, 3usize)).unwrap().0.left);
}

#[test]
fn pagination_leaves_outside_of_region_untouched() {
    let mut buffer = MessageBuffer::new(2, 10, border());
    buffer.add_text("ab", UnitColor::White);
    let canvas = Canvas::<i32>::empty_canvas();
    let mut ui = UiCanvas::from_canvas(canvas);
    ui.draw_unit(
        DrawableUnit::from_double_half_char('q', 'q', UnitColor::Red),
        Pair::new(20usize, 20usize),
        9,
    );
    let region = Rectangle::from_corners(Pair::new(0usize, 0usize), Pair::new(6usize, 4usize));
    buffer.draw_message(&mut ui, region, 0);
    let canvas = ui.into_canvas();
    let slot = canvas.slot_at(Pair::new(20usize, 20usize)).unwrap();
    assert_eq!('q', slot.0.left);
    assert!(canvas.slot_at(Pair::new(7usize, 0usize)).is_none());
}

#[test]
fn lower_layer_message_does_not_overwrite() {
    let mut buffer = MessageBuffer::new(2, 10, border());
    buffer.add_text("ab", UnitColor::White);
    let mut canvas = Canvas::<i32>::empty_canvas();
    let unit = DrawableUnit::from_double_half_char('q', 'q', UnitColor::Red);
    canvas.draw_unit(unit, Pair::new(1usize, 3usize), 10);
    let mut ui = UiCanvas::from_canvas(canvas);
    let region = Rectangle::from_corners(Pair::new(0usize, 0usize), Pair::new(6usize, 4usize));
    buffer.draw_message(&mut ui, region, 0);
    let canvas = ui.into_canvas();
    // The message pass runs at layer 0, below the existing layer 10 content.
    assert_eq!(unit, canvas.slot_at(Pair::new(1usize, 3usize)).unwrap().0);
}

#[test]
fn pagination_partially_clips_line_at_top_edge() {
    let mut buffer = MessageBuffer::new(10, 30, border());
    buffer.add_text("abcdefghijklmnopqrstuvwx", UnitColor::White);
    buffer.add_newline();
    buffer.add_text("zz", UnitColor::White);
    let mut ui = UiCanvas::from_canvas(Canvas::<i32>::empty_canvas());
    let region = Rectangle::from_corners(Pair::new(0usize, 0usize), Pair::new(6usize, 4usize));
    buffer.draw_message(&mut ui, region, 0);
    let canvas = ui.into_canvas();
    // The newest line sits on the bottom interior row.
    assert_eq!('z', canvas.slot_at(Pair::new(1usize, 3usize)).unwrap().0.left);
    // The older 12-cell line needs three rows ending at interior row 2; its
    // first wrapped row falls above the interior and is clipped, while its
    // middle and last wrapped rows stay visible.
    assert_eq!('k', canvas.slot_at(Pair::new(1usize, 1usize)).unwrap().0.left);
    assert_eq!('u', canvas.slot_at(Pair::new(1usize, 2usize)).unwrap().0.left);
    assert_eq!(' ', canvas.slot_at(Pair::new(3usize, 2usize)).unwrap().0.left);
}
