use cui_gaming::{
    Canvas, DrawableUnit, OutputBuffer, OutputItem, Pair, Reference, UnitColor, WorldCanvas,
};

#[test]
fn second_draw_wins_on_higher_or_equal_layer() {
    let mut canvas = Canvas::<i32>::empty_canvas();
    let first = DrawableUnit::from_double_half_char('a', 'b', UnitColor::White);
    let second = DrawableUnit::from_double_half_char('c', 'd', UnitColor::Red);
    let position = Pair::new(3usize, 4usize);
    canvas.draw_unit(first, position, 1);
    canvas.draw_unit(second, position, 0);
    let slot = canvas.slot_at(position).unwrap();
    assert_eq!(first, slot.0);
    assert_eq!(1, slot.1);
    canvas.draw_unit(second, position, 1);
    let slot = canvas.slot_at(position).unwrap();
    assert_eq!(second, slot.0);
    assert_eq!(1, slot.1);
}

#[test]
fn draw_on_empty_slot_always_lands() {
    let mut canvas = Canvas::<i32>::empty_canvas();
    let unit = DrawableUnit::from_double_half_char('a', 'b', UnitColor::Green);
    let position = Pair::new(0usize, 0usize);
    assert!(canvas.slot_at(position).is_none());
    canvas.draw_unit(unit, position, -7);
    let slot = canvas.slot_at(position).unwrap();
    assert_eq!(unit, slot.0);
    assert_eq!(-7, slot.1);
}

#[test]
fn cleared_canvas_writes_blank_frame() {
    let mut canvas = Canvas::<i32>::empty_canvas();
    let unit = DrawableUnit::from_double_half_char('x', 'y', UnitColor::Red);
    canvas.draw_unit(unit, Pair::new(0usize, 0usize), 5);
    canvas.clear();
    let mut out = OutputBuffer::new();
    canvas.write_to(&mut out).unwrap();
    let blank = DrawableUnit::from_double_half_char(' ', ' ', UnitColor::White);
    let top = DrawableUnit::from_double_half_char('_', '_', UnitColor::White);
    let left = DrawableUnit::from_double_half_char(' ', '|', UnitColor::White);
    let right = DrawableUnit::from_double_half_char('|', ' ', UnitColor::White);
    let bottom = DrawableUnit::from_single_full_char('￣', UnitColor::White);
    assert_eq!(41 + 30 * 41 + 40, out.len());
    for i in 0..40 {
        assert_eq!(OutputItem::Unit(top), out.get(i));
    }
    assert_eq!(OutputItem::Newline, out.get(40));
    for row in 0..30 {
        let base = 41 + row * 41;
        assert_eq!(OutputItem::Unit(left), out.get(base));
        for x in 0..38 {
            assert_eq!(OutputItem::Unit(blank), out.get(base + 1 + x));
        }
        assert_eq!(OutputItem::Unit(right), out.get(base + 39));
        assert_eq!(OutputItem::Newline, out.get(base + 40));
    }
    for i in 0..40 {
        assert_eq!(OutputItem::Unit(bottom), out.get(41 + 30 * 41 + i));
    }
}

#[test]
fn drawn_unit_appears_in_output() {
    let mut canvas = Canvas::<i32>::empty_canvas();
    let unit = DrawableUnit::from_double_half_char('h', 'i', UnitColor::Cyan);
    canvas.draw_unit(unit, Pair::new(2usize, 1usize), 0);
    let mut out = OutputBuffer::new();
    canvas.write_to(&mut out).unwrap();
    // row 1 starts after top border (41 items) and row 0 (41 items); its
    // left border is one more, then the slot columns follow.
    let index = 41 + 41 + 1 + 2;
    assert_eq!(OutputItem::Unit(unit), out.get(index));
}

#[test]
fn test_canvas_position_of() {
    let canvas = Canvas::<i32>::empty_canvas();
    let reference_canvas_position = Pair::new(10usize, 20usize);
    let reference_world_position = Pair::new(-1isize, 5isize);
    let reference = Reference::new(reference_canvas_position, reference_world_position);
    assert_eq!(
        Some(reference_canvas_position),
        reference.canvas_position_of(reference_world_position, &canvas)
    );
    assert_eq!(
        Some(reference_canvas_position.add(Pair::new(10usize, 1usize))),
        reference.canvas_position_of(
            reference_world_position.add(Pair::new(10isize, 1isize)),
            &canvas
        )
    );
    assert_eq!(
        None,
        reference.canvas_position_of(
            reference_world_position.sub(canvas.size().try_cast_signed().unwrap()),
            &canvas
        )
    );
}

#[test]
fn projection_rejects_far_and_extreme_positions() {
    let canvas = Canvas::<i32>::empty_canvas();
    let reference = Reference::new(Pair::new(0usize, 0usize), Pair::new(0isize, 0isize));
    assert_eq!(
        None,
        reference.canvas_position_of(Pair::new(38isize, 0isize), &canvas)
    );
    assert_eq!(
        None,
        reference.canvas_position_of(Pair::new(0isize, 30isize), &canvas)
    );
    assert_eq!(
        None,
        reference.canvas_position_of(Pair::new(-1isize, 0isize), &canvas)
    );
    assert_eq!(
        None,
        reference.canvas_position_of(Pair::new(isize::MIN, isize::MAX), &canvas)
    );
    assert_eq!(
        Some(Pair::new(37usize, 29usize)),
        reference.canvas_position_of(Pair::new(37isize, 29isize), &canvas)
    );
}

#[test]
fn projection_rejects_anchor_outside_signed_domain() {
    let canvas = Canvas::<i32>::empty_canvas();
    // The canvas anchor cannot be cast into the signed domain, so every
    // projection misses — even one whose mathematical sum lands on-canvas.
    let anchor = Pair::new((isize::MAX as usize) + 6, (isize::MAX as usize) + 6);
    let reference = Reference::new(anchor, Pair::new(0isize, 0isize));
    assert_eq!(
        None,
        reference.canvas_position_of(Pair::new(isize::MIN, isize::MIN), &canvas)
    );
    assert_eq!(
        None,
        reference.canvas_position_of(Pair::new(0isize, 0isize), &canvas)
    );
}

#[test]
fn world_draw_misses_silently_off_canvas() {
    let canvas = Canvas::<i32>::empty_canvas();
    let reference = Reference::new(Pair::new(0usize, 0usize), Pair::new(0isize, 0isize));
    let mut world = WorldCanvas::from_canvas(canvas, reference);
    let unit = DrawableUnit::from_double_half_char('w', 'w', UnitColor::Blue);
    world.draw_unit(unit, Pair::new(-1isize, 0isize), 1);
    world.draw_unit(unit, Pair::new(5isize, 5isize), 1);
    let canvas = world.into_canvas();
    assert!(canvas.slot_at(Pair::new(0usize, 0usize)).is_none());
    let slot = canvas.slot_at(Pair::new(5usize, 5usize)).unwrap();
    assert_eq!(unit, slot.0);
}
