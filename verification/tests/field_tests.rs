use fishtank::field::Field;

#[test]
fn new_field_holds_default_in_every_cell() {
    let field: Field<u32> = Field::new(3, 7);
    assert_eq!(field.cell_count(), 27);
    assert_eq!(field.cells_per_row(), 3);
    assert!(field.data().iter().all(|v| *v == 7));
}

#[test]
fn single_cell_field() {
    let field: Field<i64> = Field::new(1, -4);
    assert_eq!(field.cell_count(), 1);
    assert_eq!(field.field_value_from_index(0), -4);
    assert_eq!(field.cell_from_index(0), (0, 0, 0));
    assert_eq!(field.index_from_cell(5, -5, 0), 0);
}

#[test]
fn add_to_field_changes_only_one_cell() {
    let mut field: Field<f32> = Field::new(3, 0.0);
    field.add_to_field(13, 1.0, |a, b| a + b);
    field.add_to_field(13, 1.0, |a, b| a + b);
    field.add_to_field(4, 2.5, |a, b| a + b);
    assert_eq!(field.field_value_from_index(13), 2.0);
    assert_eq!(field.field_value_from_index(4), 2.5);
    let others: f32 = field
        .data()
        .iter()
        .enumerate()
        .filter(|(i, _)| *i != 13 && *i != 4)
        .map(|(_, v)| *v)
        .sum();
    assert_eq!(others, 0.0);
}

#[test]
fn clear_restores_default_and_set_field_does_not_change_it() {
    let mut field: Field<u32> = Field::new(3, 1);
    field.set_field(9);
    assert!(field.data().iter().all(|v| *v == 9));
    field.add_to_field(0, 5, |a, b| a + b);
    assert_eq!(field.field_value_from_index(0), 14);
    field.clear();
    assert!(field.data().iter().all(|v| *v == 1));
}

#[test]
fn checked_lookup_outside_grid_is_none() {
    let field: Field<u8> = Field::new(3, 2);
    assert_eq!(field.field_value_checked(26), Some(2));
    assert_eq!(field.field_value_checked(27), None);
    assert_eq!(field.field_value_checked(usize::MAX), None);
}

#[test]
fn cell_from_index_gives_base_n_digits() {
    let field: Field<u8> = Field::new(5, 0);
    // 87 = 2 + 5 * 2 + 25 * 3
    assert_eq!(field.cell_from_index(87), (2, 2, 3));
    assert_eq!(field.cell_from_index(0), (0, 0, 0));
    assert_eq!(field.cell_from_index(124), (4, 4, 4));
    // past the grid the slice keeps counting
    assert_eq!(field.cell_from_index(130), (0, 1, 5));
}

#[test]
fn index_from_cell_combines_and_clamps() {
    let field: Field<u8> = Field::new(5, 0);
    assert_eq!(field.index_from_cell(2, 2, 3), 87);
    assert_eq!(field.index_from_cell(-3, 0, 0), 0);
    assert_eq!(field.index_from_cell(9, 9, 9), 124);
    assert_eq!(field.index_from_cell(i64::MIN, i64::MAX, 1), 45);
}

#[test]
fn index_and_cell_round_trip() {
    let field: Field<u8> = Field::new(7, 0);
    for index in 0..field.cell_count() {
        let (x, y, z) = field.cell_from_index(index as u32);
        assert_eq!(field.index_from_cell(x as i64, y as i64, z as i64), index);
    }
}

#[test]
fn offset_index_stays_in_grid() {
    let field: Field<u8> = Field::new(3, 0);
    assert_eq!(field.offset_index(13, -13), Some(0));
    assert_eq!(field.offset_index(13, -14), None);
    assert_eq!(field.offset_index(13, 13), Some(26));
    assert_eq!(field.offset_index(13, 14), None);
    assert_eq!(field.offset_index(0, 0), Some(0));
}

#[test]
fn offset_index_reads_cell_as_signed_32_bit() {
    let field: Field<u8> = Field::new(3, 0);
    // 2^32 + 5 has the low 32 bits of 5
    assert_eq!(field.offset_index((1usize << 32) + 5, 1), Some(6));
    // 2^32 - 1 reads as -1
    assert_eq!(field.offset_index((1usize << 32) - 1, 3), Some(2));
    assert_eq!(field.offset_index((1usize << 32) - 1, 0), None);
}
