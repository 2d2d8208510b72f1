use brim::config::{Config, Overflow, TapeModel};
use brim::helper::{left_right, wrap_cell, wrap_goto, TAPE_LEN};

#[test]
fn wrap_goto_moves_within_the_tape() {
    assert_eq!(wrap_goto(0, 1), 1);
    assert_eq!(wrap_goto(10, 5), 15);
    assert_eq!(wrap_goto(10, -5), 5);
    assert_eq!(wrap_goto(10, 0), 10);
    assert_eq!(wrap_goto(10, -10), 0);
}

#[test]
fn wrap_goto_leaves_at_one_end_and_enters_at_the_other() {
    assert_eq!(wrap_goto(29999, 1), 0);
    assert_eq!(wrap_goto(29999, 2), 1);
    assert_eq!(wrap_goto(0, -1), 29999);
    assert_eq!(wrap_goto(3, -5), 29998);
}

#[test]
fn wrap_goto_by_the_tape_length_stays() {
    for x in [0usize, 1, 17, 15000, 29999] {
        assert_eq!(wrap_goto(x, 30000), x);
        assert_eq!(wrap_goto(x, -30000), x);
        assert_eq!(wrap_goto(x, 90000), x);
        assert_eq!(wrap_goto(x, -60000), x);
    }
    assert_eq!(TAPE_LEN, 30000);
}

#[test]
fn wrap_goto_takes_long_moves() {
    assert_eq!(wrap_goto(5, -30005), 0);
    assert_eq!(wrap_goto(5, -30006), 29999);
    assert_eq!(wrap_goto(0, -60001), 29999);
    assert_eq!(wrap_goto(7, 1_000_000), (7 + 1_000_000) % 30000);
    assert_eq!(wrap_goto(0, isize::MAX), (isize::MAX as u128 % 30000) as usize);
    assert_eq!(
        wrap_goto(0, isize::MIN),
        ((30000 - (isize::MIN.unsigned_abs() as u128 % 30000)) % 30000) as usize
    );
}

#[test]
fn wrap_goto_takes_any_index() {
    assert_eq!(wrap_goto(30000, 0), 0);
    assert_eq!(wrap_goto(60007, -8), 29999);
    assert_eq!(wrap_goto(usize::MAX, 1), ((usize::MAX as u128 + 1) % 30000) as usize);
}

#[test]
fn wrap_cell_adds_and_subtracts() {
    assert_eq!(wrap_cell(0, 1), 1);
    assert_eq!(wrap_cell(10, 5), 15);
    assert_eq!(wrap_cell(10, -5), 5);
    assert_eq!(wrap_cell(10, 0), 10);
}

#[test]
fn wrap_cell_wraps_around() {
    assert_eq!(wrap_cell(255, 1), 0);
    assert_eq!(wrap_cell(0, -1), 255);
    assert_eq!(wrap_cell(200, 100), 44);
    assert_eq!(wrap_cell(10, -20), 246);
    assert_eq!(wrap_cell(10, 1000), 242);
    assert_eq!(wrap_cell(10, -1000), 34);
    assert_eq!(wrap_cell(255, i16::MAX), 254);
    assert_eq!(wrap_cell(0, i16::MIN), 0);
}

#[test]
fn a_cell_incremented_256_times_is_back() {
    for start in [0u8, 1, 100, 255] {
        let mut cell = start;
        for _ in 0..256 {
            cell = wrap_cell(cell, 1);
        }
        assert_eq!(cell, start);
        assert_eq!(wrap_cell(start, 256), start);
        assert_eq!(wrap_cell(start, -256), start);
    }
}

#[test]
fn left_right_writes_the_move() {
    assert_eq!(left_right(0), "");
    assert_eq!(left_right(1), ">");
    assert_eq!(left_right(3), ">>>");
    assert_eq!(left_right(-1), "<");
    assert_eq!(left_right(-4), "<<<<");
}

#[test]
fn narrow_wraps() {
    assert_eq!(Overflow::Wrap.narrow(0), 0);
    assert_eq!(Overflow::Wrap.narrow(255), 255);
    assert_eq!(Overflow::Wrap.narrow(256), 0);
    assert_eq!(Overflow::Wrap.narrow(-1), 255);
    assert_eq!(Overflow::Wrap.narrow(65280), 0);
    assert_eq!(Overflow::Wrap.narrow(-257), 255);
    assert_eq!(Overflow::Wrap.narrow(i32::MAX), 255);
    assert_eq!(Overflow::Wrap.narrow(i32::MIN), 0);
}

#[test]
fn narrow_saturates() {
    assert_eq!(Overflow::Saturate.narrow(0), 0);
    assert_eq!(Overflow::Saturate.narrow(255), 255);
    assert_eq!(Overflow::Saturate.narrow(256), 255);
    assert_eq!(Overflow::Saturate.narrow(70000), 255);
    assert_eq!(Overflow::Saturate.narrow(-1), 0);
    assert_eq!(Overflow::Saturate.narrow(-70000), 0);
    assert_eq!(Overflow::Saturate.narrow(77), 77);
}

#[test]
fn shift_on_a_ring() {
    let ring = TapeModel::Fixed(10);
    assert_eq!(ring.shift(0, 1), 1);
    assert_eq!(ring.shift(9, 1), 0);
    assert_eq!(ring.shift(0, -1), 9);
    assert_eq!(ring.shift(3, 10), 3);
    assert_eq!(ring.shift(3, -10), 3);
    assert_eq!(ring.shift(3, -25), 8);
    assert_eq!(ring.shift(3, 25), 8);
    assert_eq!(TapeModel::Fixed(1).shift(0, 12345), 0);
    assert_eq!(TapeModel::Fixed(7).shift(0, isize::MIN), ((7 - (1u128 << 63) % 7) % 7) as usize);
    assert_eq!(TapeModel::Fixed(usize::MAX).shift(usize::MAX - 1, 1), 0);
    assert_eq!(TapeModel::Fixed(usize::MAX).shift(0, -1), usize::MAX - 1);
}

#[test]
fn shift_on_the_default_ring_is_wrap_goto() {
    let ring = TapeModel::Fixed(30000);
    for (x, c) in [(0usize, -1isize), (29999, 1), (5, -30006), (123, 456_789), (30001, -3)] {
        assert_eq!(ring.shift(x, c), wrap_goto(x, c));
    }
}

#[test]
fn shift_sum_on_a_ring() {
    let ring = TapeModel::Fixed(10);
    assert_eq!(ring.shift_sum(0, 3, 4), 7);
    assert_eq!(ring.shift_sum(5, 3, 4), 2);
    assert_eq!(ring.shift_sum(5, -3, -4), 8);
    assert_eq!(ring.shift_sum(5, isize::MAX, isize::MIN), 4);
    assert_eq!(
        ring.shift_sum(0, isize::MAX, isize::MAX),
        ((2 * (isize::MAX as u128)) % 10) as usize
    );
    assert_eq!(
        ring.shift_sum(0, isize::MIN, isize::MIN),
        ((10 - (1u128 << 64) % 10) % 10) as usize
    );
}

#[test]
fn shift_on_a_growing_tape() {
    let open = TapeModel::Dynamic;
    assert_eq!(open.shift(0, 1), 1);
    assert_eq!(open.shift(5, -3), 2);
    assert_eq!(open.shift(5, -5), 0);
    assert_eq!(open.shift(5, -6), 0);
    assert_eq!(open.shift(0, isize::MIN), 0);
    assert_eq!(open.shift(40000, 1), 40001);
    assert_eq!(open.shift(usize::MAX, 1), usize::MAX);
    assert_eq!(open.shift(usize::MAX - 1, 5), usize::MAX);
}

#[test]
fn shift_sum_on_a_growing_tape() {
    let open = TapeModel::Dynamic;
    assert_eq!(open.shift_sum(0, -5, 3), 0);
    assert_eq!(open.shift_sum(10, -5, 3), 8);
    assert_eq!(open.shift_sum(0, isize::MAX, isize::MAX), usize::MAX - 1);
    assert_eq!(open.shift_sum(2, isize::MAX, isize::MAX), usize::MAX);
}

#[test]
fn validity_of_a_configuration() {
    assert!(TapeModel::Fixed(1).is_valid());
    assert!(TapeModel::Dynamic.is_valid());
    assert!(!TapeModel::Fixed(0).is_valid());
    assert!(Config::default().is_valid());
    assert!(!Config { tape: TapeModel::Fixed(0), overflow: Overflow::Wrap }.is_valid());
}

#[test]
fn the_default_configuration() {
    assert_eq!(
        Config::default(),
        Config { tape: TapeModel::Fixed(30000), overflow: Overflow::Wrap }
    );
}
