use mine_sweeper::board::{BlockStatus, BlockType, ClickResult, ConfigError, MineBlock, MinePlayground, Position};
use mine_sweeper::neighbors::get_surroundings;

fn layout(width: usize, height: usize, mines: &[(usize, usize)]) -> Vec<bool> {
    let mut seeds = vec![false; width * height];
    for &(x, y) in mines {
        seeds[y * width + x] = true;
    }
    seeds
}

fn count_mines(b: &MinePlayground) -> usize {
    b.map.iter().flatten().filter(|c| c.btype == BlockType::Mine).count()
}

fn count_status(b: &MinePlayground, s: BlockStatus) -> usize {
    b.map.iter().flatten().filter(|c| c.bstatus == s).count()
}

#[test]
fn test_init_map() {
    assert!(MinePlayground::init(&0, &0, &0).is_err());
    assert!(MinePlayground::init(&8, &8, &10).is_ok());
}

#[test]
fn test_get_surroundings() {
    assert_eq!(get_surroundings(&9, &9, &10, &10), vec![(8, 9), (9, 8), (8, 8)]);
}

#[test]
fn surroundings_of_inner_cell_are_eight() {
    let mut r = get_surroundings(&4, &4, &10, &10);
    r.sort();
    assert_eq!(r, vec![(3, 3), (3, 4), (3, 5), (4, 3), (4, 5), (5, 3), (5, 4), (5, 5)]);
}

#[test]
fn surroundings_come_in_fixed_order() {
    assert_eq!(
        get_surroundings(&5, &5, &10, &10),
        vec![(4, 5), (6, 5), (5, 4), (4, 4), (6, 4), (5, 6), (4, 6), (6, 6)]
    );
}

#[test]
fn surroundings_of_cell_off_the_grid() {
    assert_eq!(
        get_surroundings(&12, &3, &10, &10),
        vec![(11, 3), (12, 2), (11, 2), (12, 4), (11, 4)]
    );
}

#[test]
fn surroundings_on_single_cell_grid() {
    assert_eq!(get_surroundings(&0, &0, &1, &1), vec![]);
}

#[test]
fn surroundings_of_top_left_corner() {
    assert_eq!(get_surroundings(&0, &0, &10, &10), vec![(1, 0), (0, 1), (1, 1)]);
}

#[test]
fn init_rejects_each_parameter_out_of_range() {
    assert!(matches!(MinePlayground::init(&4, &8, &10), Err(ConfigError::OutOfRange)));
    assert!(matches!(MinePlayground::init(&200, &8, &10), Err(ConfigError::OutOfRange)));
    assert!(matches!(MinePlayground::init(&8, &4, &10), Err(ConfigError::OutOfRange)));
    assert!(matches!(MinePlayground::init(&8, &200, &10), Err(ConfigError::OutOfRange)));
    assert!(matches!(MinePlayground::init(&8, &8, &0), Err(ConfigError::OutOfRange)));
    assert!(matches!(MinePlayground::init(&8, &8, &100), Err(ConfigError::OutOfRange)));
}

#[test]
fn init_rejects_no_safe_cell() {
    assert!(matches!(MinePlayground::init(&5, &5, &25), Err(ConfigError::OutOfRange)));
    assert!(matches!(MinePlayground::init(&5, &5, &99), Err(ConfigError::OutOfRange)));
    assert!(MinePlayground::init(&5, &5, &24).is_ok());
}

#[test]
fn init_accepts_range_edges() {
    assert!(MinePlayground::init(&5, &5, &1).is_ok());
    assert!(MinePlayground::init(&199, &199, &99).is_ok());
}

#[test]
fn init_places_exactly_the_mines_asked_for() {
    let b = MinePlayground::init(&8, &8, &10).ok().unwrap();
    assert_eq!(b.width, 8);
    assert_eq!(b.height, 8);
    assert_eq!(count_mines(&b), 10);
    assert_eq!(count_status(&b, BlockStatus::Hidden), 64);
    assert_eq!(b.shown_count, 0);
    assert_eq!(b.safety_block_count, 54);
    for (y, row) in b.map.iter().enumerate() {
        assert_eq!(row.len(), 8);
        for (x, cell) in row.iter().enumerate() {
            assert_eq!(cell.pos, Position { x, y });
        }
    }
}

#[test]
fn init_shuffles_the_mines() {
    // Unshuffled, the ten mines would fill the first ten cells in row order.
    let mut moved = false;
    for _ in 0..20 {
        let b = MinePlayground::init(&8, &8, &10).ok().unwrap();
        let first_ten = (0..10).all(|i| b.map[i / 8][i % 8].btype == BlockType::Mine);
        if !first_ten {
            moved = true;
        }
    }
    assert!(moved);
}

#[test]
fn init_hints_count_neighbouring_mines() {
    let b = MinePlayground::init(&10, &10, &30).ok().unwrap();
    for y in 0..10 {
        for x in 0..10 {
            if b.map[y][x].btype == BlockType::Mine {
                continue;
            }
            let n = get_surroundings(&x, &y, &10, &10)
                .iter()
                .filter(|&&(a, c)| b.map[c][a].btype == BlockType::Mine)
                .count();
            let expected = if n == 0 { BlockType::Space } else { BlockType::Tip(n) };
            assert_eq!(b.map[y][x].btype, expected);
        }
    }
}

#[test]
fn from_seeds_computes_hints() {
    let b = MinePlayground::from_seeds(5, 5, &layout(5, 5, &[(0, 0), (4, 4), (3, 4)]));
    assert_eq!(b.map[0][0].btype, BlockType::Mine);
    assert_eq!(b.map[0][1].btype, BlockType::Tip(1));
    assert_eq!(b.map[1][1].btype, BlockType::Tip(1));
    assert_eq!(b.map[2][2].btype, BlockType::Space);
    assert_eq!(b.map[3][3].btype, BlockType::Tip(2));
    assert_eq!(b.map[3][4].btype, BlockType::Tip(2));
    assert_eq!(b.map[4][2].btype, BlockType::Tip(1));
    assert_eq!(b.safety_block_count, 22);
    assert_eq!(count_mines(&b), 3);
}

#[test]
fn from_seeds_hint_of_eight() {
    let mines: Vec<(usize, usize)> = get_surroundings(&2, &2, &5, &5);
    let b = MinePlayground::from_seeds(5, 5, &layout(5, 5, &mines));
    assert_eq!(b.map[2][2].btype, BlockType::Tip(8));
}

#[test]
fn reveal_space_floods_its_region_only() {
    // a wall of mines down column 2
    let mines: Vec<(usize, usize)> = (0..5).map(|y| (2, y)).collect();
    let mut b = MinePlayground::from_seeds(5, 5, &layout(5, 5, &mines));
    assert_eq!(b.click(&0, &0), ClickResult::NothingHappened);
    for y in 0..5 {
        assert_eq!(b.map[y][0].bstatus, BlockStatus::Shown);
        assert_eq!(b.map[y][1].bstatus, BlockStatus::Shown);
        for x in 2..5 {
            assert_eq!(b.map[y][x].bstatus, BlockStatus::Hidden);
        }
    }
    assert_eq!(b.shown_count, 10);
}

#[test]
fn reveal_tip_shows_only_that_cell() {
    let mut b = MinePlayground::from_seeds(5, 5, &layout(5, 5, &[(0, 0)]));
    assert_eq!(b.click(&1, &1), ClickResult::NothingHappened);
    assert_eq!(b.map[1][1].bstatus, BlockStatus::Shown);
    assert_eq!(count_status(&b, BlockStatus::Shown), 1);
    assert_eq!(b.shown_count, 1);
}

#[test]
fn reveal_last_safe_region_wins() {
    let mut b = MinePlayground::from_seeds(5, 5, &layout(5, 5, &[(0, 0), (4, 4)]));
    assert_eq!(b.click(&2, &2), ClickResult::Win);
    assert_eq!(b.shown_count, 23);
    assert_eq!(b.map[0][0].bstatus, BlockStatus::Hidden);
    assert_eq!(b.map[4][4].bstatus, BlockStatus::Hidden);
}

#[test]
fn reveal_last_single_cell_wins() {
    let mines: Vec<(usize, usize)> = (0..5).map(|y| (2, y)).collect();
    let mut b = MinePlayground::from_seeds(5, 5, &layout(5, 5, &mines));
    assert_eq!(b.click(&0, &0), ClickResult::NothingHappened);
    assert_eq!(b.click(&4, &4), ClickResult::Win);
}

#[test]
fn reveal_mine_loses_and_shows_everything() {
    let mut b = MinePlayground::from_seeds(5, 5, &layout(5, 5, &[(0, 0), (4, 4)]));
    b.right_click(&3, &3);
    assert_eq!(b.click(&0, &0), ClickResult::Wasted);
    assert_eq!(count_status(&b, BlockStatus::Shown), 25);
    assert_eq!(b.click(&2, &2), ClickResult::NothingHappened);
    assert_eq!(b.click(&4, &4), ClickResult::NothingHappened);
    b.right_click(&1, &1);
    assert_eq!(count_status(&b, BlockStatus::Shown), 25);
}

#[test]
fn right_click_cycles_marks() {
    let mut b = MinePlayground::from_seeds(5, 5, &layout(5, 5, &[(0, 0)]));
    b.right_click(&3, &3);
    assert_eq!(b.map[3][3].bstatus, BlockStatus::Flaged);
    b.right_click(&3, &3);
    assert_eq!(b.map[3][3].bstatus, BlockStatus::QuestionMarked);
    b.right_click(&3, &3);
    assert_eq!(b.map[3][3].bstatus, BlockStatus::Hidden);
    assert_eq!(count_status(&b, BlockStatus::Hidden), 25);
}

#[test]
fn right_click_leaves_shown_cell() {
    let mut b = MinePlayground::from_seeds(5, 5, &layout(5, 5, &[(0, 0)]));
    b.click(&1, &0);
    b.right_click(&1, &0);
    assert_eq!(b.map[0][1].bstatus, BlockStatus::Shown);
}

#[test]
fn flagged_cell_is_not_revealed() {
    let mut b = MinePlayground::from_seeds(5, 5, &layout(5, 5, &[(0, 0)]));
    b.right_click(&0, &0);
    assert_eq!(b.click(&0, &0), ClickResult::NothingHappened);
    assert_eq!(b.map[0][0].bstatus, BlockStatus::Flaged);
    assert_eq!(count_status(&b, BlockStatus::Shown), 0);
}

#[test]
fn flood_skips_flagged_cells() {
    let mut b = MinePlayground::from_seeds(5, 5, &layout(5, 5, &[(0, 0)]));
    b.right_click(&4, &4);
    assert_eq!(b.click(&3, &3), ClickResult::NothingHappened);
    assert_eq!(b.map[4][4].bstatus, BlockStatus::Flaged);
    assert_eq!(b.shown_count, 23);
}

#[test]
fn second_reveal_changes_nothing() {
    let mut b = MinePlayground::from_seeds(5, 5, &layout(5, 5, &[(0, 0)]));
    assert_eq!(b.click(&1, &1), ClickResult::NothingHappened);
    let shown = b.shown_count;
    assert_eq!(b.click(&1, &1), ClickResult::NothingHappened);
    assert_eq!(b.shown_count, shown);
    assert_eq!(count_status(&b, BlockStatus::Shown), 1);
}

#[test]
fn get_checks_bounds() {
    let b = MinePlayground::from_seeds(5, 5, &layout(5, 5, &[(0, 0)]));
    assert!(b.get(-1, 0).is_none());
    assert!(b.get(0, -1).is_none());
    assert!(b.get(5, 0).is_none());
    assert!(b.get(0, 5).is_none());
    assert_eq!(b.get(0, 0).unwrap().btype, BlockType::Mine);
    assert_eq!(b.get(4, 3).unwrap().pos, Position { x: 4, y: 3 });
}

#[test]
fn default_block_and_add_tip() {
    let mut c = MineBlock::default();
    assert_eq!(c.btype, BlockType::Space);
    assert_eq!(c.bstatus, BlockStatus::Hidden);
    assert_eq!(c.pos, Position { x: 0, y: 0 });
    c.add_tip();
    assert_eq!(c.btype, BlockType::Tip(1));
    c.add_tip();
    assert_eq!(c.btype, BlockType::Tip(2));
}
