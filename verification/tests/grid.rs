use pillar_render::grid::Grid;

#[test]
fn grid_needs_one_cell_for_each_place() {
    assert!(Grid::new(2, 3, vec![0u8; 6]).is_some());
    assert!(Grid::new(2, 3, vec![0u8; 5]).is_none());
    assert!(Grid::new(2, 3, vec![0u8; 7]).is_none());
    assert!(Grid::new(0, 3, Vec::<u8>::new()).is_some());
    assert!(Grid::new(0, 0, vec![1u8]).is_none());
    assert!(Grid::new(usize::MAX, 2, vec![1u8, 2]).is_none());
    assert!(Grid::new(usize::MAX, usize::MAX, vec![1u8]).is_none());
}

#[test]
fn grid_is_stored_row_by_row() {
    let g = Grid::new(3, 2, vec![10u8, 11, 12, 20, 21, 22]).unwrap();
    assert_eq!(g.width(), 3);
    assert_eq!(g.height(), 2);
    assert_eq!(g.cells(), &vec![10u8, 11, 12, 20, 21, 22]);
    assert_eq!(*g.at(0, 0), 10);
    assert_eq!(*g.at(2, 0), 12);
    assert_eq!(*g.at(0, 1), 20);
    assert_eq!(*g.at(2, 1), 22);
    assert_eq!(g.get(1, 1), Some(&21));
    assert_eq!(g.get(3, 0), None);
    assert_eq!(g.get(0, 2), None);
    assert_eq!(g.get(usize::MAX, usize::MAX), None);
    let same = Grid::from_cells(3, 2, vec![10u8, 11, 12, 20, 21, 22]);
    assert_eq!(same.cells(), g.cells());
    assert_eq!((same.width(), same.height()), (3, 2));
}
