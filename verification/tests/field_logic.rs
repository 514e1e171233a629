use puyo_sim::board::{can_pass, collect_floating, landing_row};
use puyo_sim::chain::{find_chain_groups, ChainGroup};
use puyo_sim::gravity::start_dropping;
use puyo_sim::puyo::Puyo;
use puyo_sim::scoring::{chain_power, cleared_count, color_bonus, group_bonus, score_gain};
use puyo_sim::types::{Col, DroppingPuyo, FieldRow, GameEvent};

const W: usize = 6;

fn empty() -> Vec<Option<Puyo>> {
    vec![None; 84]
}

/// Puts a puyo at a visible cell (row 0 is the top visible row).
fn put(cells: &mut Vec<Option<Puyo>>, col: usize, vrow: usize, p: Puyo) {
    cells[(vrow + 2) * W + col] = Some(p);
}

fn group(p: Puyo, cells: Vec<(usize, usize)>) -> ChainGroup {
    ChainGroup { puyo: p, cells }
}

#[test]
fn four_in_a_column_pop() {
    let mut cells = empty();
    for r in 8..12 {
        put(&mut cells, 0, r, Puyo::Red);
    }
    let groups = find_chain_groups(&cells);
    assert_eq!(groups.len(), 1);
    assert_eq!(groups[0].puyo, Puyo::Red);
    assert_eq!(groups[0].cells, vec![(0, 8), (0, 9), (0, 10), (0, 11)]);
}

#[test]
fn three_do_not_pop() {
    let mut cells = empty();
    for r in 9..12 {
        put(&mut cells, 2, r, Puyo::Blue);
    }
    put(&mut cells, 3, 11, Puyo::Green);
    assert!(find_chain_groups(&cells).is_empty());
}

#[test]
fn l_shape_pops_in_scan_order() {
    let mut cells = empty();
    put(&mut cells, 1, 9, Puyo::Green);
    put(&mut cells, 1, 10, Puyo::Green);
    put(&mut cells, 1, 11, Puyo::Green);
    put(&mut cells, 2, 11, Puyo::Green);
    put(&mut cells, 0, 11, Puyo::Blue);
    let groups = find_chain_groups(&cells);
    assert_eq!(groups.len(), 1);
    assert_eq!(groups[0].puyo, Puyo::Green);
    assert_eq!(groups[0].cells, vec![(1, 9), (1, 10), (1, 11), (2, 11)]);
}

#[test]
fn diagonal_cells_are_not_connected() {
    let mut cells = empty();
    put(&mut cells, 0, 11, Puyo::Yellow);
    put(&mut cells, 1, 10, Puyo::Yellow);
    put(&mut cells, 2, 11, Puyo::Yellow);
    put(&mut cells, 3, 10, Puyo::Yellow);
    put(&mut cells, 1, 11, Puyo::Red);
    put(&mut cells, 2, 10, Puyo::Red);
    assert!(find_chain_groups(&cells).is_empty());
}

#[test]
fn two_groups_of_two_colours() {
    let mut cells = empty();
    for c in 0..4 {
        put(&mut cells, c, 11, Puyo::Red);
        put(&mut cells, c, 10, Puyo::Blue);
    }
    put(&mut cells, 4, 10, Puyo::Blue);
    let groups = find_chain_groups(&cells);
    assert_eq!(groups.len(), 2);
    assert_eq!(groups[0].puyo, Puyo::Blue);
    assert_eq!(groups[0].cells.len(), 5);
    assert_eq!(groups[1].puyo, Puyo::Red);
    assert_eq!(groups[1].cells, vec![(0, 11), (1, 11), (2, 11), (3, 11)]);
    assert_eq!(cleared_count(&groups), 9);
    assert_eq!(color_bonus(&groups), 3);
    assert_eq!(group_bonus(&groups), 2);
    // 9 puyos * 10 * (0 + 3 + 2)
    assert_eq!(score_gain(1, &groups), 450);
}

#[test]
fn ghost_rows_are_not_scanned() {
    let mut cells = empty();
    // two puyos in the ghost rows above two visible ones
    cells[0 * W + 5] = Some(Puyo::Purple);
    cells[1 * W + 5] = Some(Puyo::Purple);
    put(&mut cells, 5, 0, Puyo::Purple);
    put(&mut cells, 5, 1, Puyo::Purple);
    assert!(find_chain_groups(&cells).is_empty());
}

#[test]
fn chain_power_table() {
    let expected = [
        0, 8, 16, 32, 64, 96, 128, 160, 192, 224, 256, 288, 320, 352, 384, 416, 448, 480, 512,
    ];
    assert_eq!(chain_power(0), 0);
    for (i, e) in expected.iter().enumerate() {
        assert_eq!(chain_power(i as u32 + 1), *e);
    }
    assert_eq!(chain_power(20), 544);
    assert_eq!(chain_power(21), 576);
    assert_eq!(chain_power(100), 512 + 81 * 32);
}

#[test]
fn color_bonus_table() {
    let colours = [Puyo::Red, Puyo::Blue, Puyo::Green, Puyo::Yellow, Puyo::Purple];
    let expected = [0u32, 0, 3, 6, 12, 24];
    assert_eq!(color_bonus(&Vec::new()), 0);
    for n in 1..=5usize {
        let groups: Vec<ChainGroup> = (0..n)
            .map(|i| group(colours[i], vec![(i, 0), (i, 1), (i, 2), (i, 3)]))
            .collect();
        assert_eq!(color_bonus(&groups), expected[n]);
    }
    // the same colour twice counts once
    let same = vec![
        group(Puyo::Red, vec![(0, 0), (0, 1), (0, 2), (0, 3)]),
        group(Puyo::Red, vec![(2, 0), (2, 1), (2, 2), (2, 3)]),
    ];
    assert_eq!(color_bonus(&same), 0);
}

#[test]
fn group_bonus_table() {
    let expected = [0u32, 0, 0, 0, 0, 2, 3, 4, 5, 6, 7, 10, 10];
    for (n, e) in expected.iter().enumerate() {
        let cells: Vec<(usize, usize)> = (0..n).map(|k| (k % 6, k / 6)).collect();
        let groups = vec![group(Puyo::Green, cells)];
        assert_eq!(group_bonus(&groups), *e);
    }
    let two = vec![
        group(Puyo::Green, (0..5).map(|k| (k, 0)).collect()),
        group(Puyo::Blue, (0..6).map(|k| (k, 1)).collect()),
    ];
    assert_eq!(group_bonus(&two), 5);
}

#[test]
fn score_gain_examples() {
    let four = vec![group(Puyo::Red, vec![(0, 8), (0, 9), (0, 10), (0, 11)])];
    // multiplier at least one
    assert_eq!(score_gain(1, &four), 40);
    assert_eq!(score_gain(2, &four), 320);
    assert_eq!(score_gain(3, &four), 640);
    let eleven = vec![group(Puyo::Blue, (0..11).map(|k| (k % 6, k / 6)).collect())];
    assert_eq!(score_gain(1, &eleven), 1100);
    let big: Vec<ChainGroup> = vec![
        group(Puyo::Red, (0..12).map(|k| (k % 6, k / 6)).collect()),
        group(Puyo::Blue, (0..12).map(|k| (k % 6, 2 + k / 6)).collect()),
        group(Puyo::Green, (0..12).map(|k| (k % 6, 4 + k / 6)).collect()),
        group(Puyo::Yellow, (0..12).map(|k| (k % 6, 6 + k / 6)).collect()),
        group(Puyo::Purple, (0..12).map(|k| (k % 6, 8 + k / 6)).collect()),
    ];
    assert_eq!(score_gain(19, &big), 60 * 10 * 586);
    assert_eq!(score_gain(30, &big), 60 * 10 * 938);
    // no cap on the multiplier
    assert_eq!(score_gain(40, &big), 60 * 10 * 1258);
    assert_eq!(score_gain(35, &four), 40 * 1024);
    assert_eq!(score_gain(1000, &four), 40 * (512 + 981 * 32));
}

#[test]
fn landing_rows() {
    let mut cells = empty();
    assert_eq!(landing_row(&cells, Col(0)), Some(FieldRow(13)));
    cells[13 * W + 0] = Some(Puyo::Red);
    cells[12 * W + 0] = Some(Puyo::Red);
    assert_eq!(landing_row(&cells, Col(0)), Some(FieldRow(11)));
    for r in 0..14 {
        cells[r * W + 1] = Some(Puyo::Blue);
    }
    assert_eq!(landing_row(&cells, Col(1)), None);
}

#[test]
fn pass_checks() {
    let mut cells = empty();
    cells[13 * W + 2] = Some(Puyo::Red);
    assert!(can_pass(&cells, (2, 12), (2, 11)));
    assert!(!can_pass(&cells, (2, 13), (2, 12)));
    assert!(!can_pass(&cells, (2, 12), (2, 13)));
    // a child above the top is allowed, an axis there is not
    assert!(can_pass(&cells, (0, 0), (0, -1)));
    assert!(!can_pass(&cells, (0, -1), (0, 0)));
    // walls
    assert!(!can_pass(&cells, (5, 5), (6, 5)));
    assert!(!can_pass(&cells, (-1, 5), (0, 5)));
    assert!(!can_pass(&cells, (0, 14), (0, 13)));
}

#[test]
fn floating_puyos_are_collected_bottom_up() {
    let mut cells = empty();
    cells[13 * W + 0] = Some(Puyo::Red);
    cells[10 * W + 0] = Some(Puyo::Blue);
    cells[8 * W + 0] = Some(Puyo::Green);
    cells[5 * W + 3] = Some(Puyo::Yellow);
    cells[13 * W + 4] = Some(Puyo::Purple);
    let floating = collect_floating(&mut cells);
    assert_eq!(
        floating,
        vec![
            (Puyo::Blue, Col(0), FieldRow(10)),
            (Puyo::Green, Col(0), FieldRow(8)),
            (Puyo::Yellow, Col(3), FieldRow(5)),
        ]
    );
    assert_eq!(cells[13 * W + 0], Some(Puyo::Red));
    assert_eq!(cells[10 * W + 0], None);
    assert_eq!(cells[8 * W + 0], None);
    assert_eq!(cells[5 * W + 3], None);
    assert_eq!(cells[13 * W + 4], Some(Puyo::Purple));
}

#[test]
fn collected_puyos_drop_to_stacked_targets() {
    let mut cells = empty();
    cells[13 * W + 0] = Some(Puyo::Red);
    cells[10 * W + 0] = Some(Puyo::Blue);
    cells[8 * W + 0] = Some(Puyo::Green);
    let floating = collect_floating(&mut cells);
    let mut events = Vec::new();
    let mut dropping = Vec::new();
    start_dropping(&mut cells, &mut events, &mut dropping, floating);
    assert!(events.is_empty());
    assert_eq!(
        dropping,
        vec![
            DroppingPuyo::new(Puyo::Blue, Col(0), 10, 12),
            DroppingPuyo::new(Puyo::Green, Col(0), 8, 11),
        ]
    );
    assert_eq!(dropping[0].row, 10_000_000);
    assert_eq!(dropping[0].velocity, 5000);
}

#[test]
fn resting_pair_is_placed_at_once() {
    let mut cells = empty();
    let mut events = Vec::new();
    let mut dropping = Vec::new();
    // a vertical pair resting on the floor, given child first
    let falling = vec![
        (Puyo::Red, Col(2), FieldRow(12)),
        (Puyo::Blue, Col(2), FieldRow(13)),
    ];
    start_dropping(&mut cells, &mut events, &mut dropping, falling);
    assert!(dropping.is_empty());
    assert_eq!(events, vec![GameEvent::PuyoLanded, GameEvent::PuyoLanded]);
    assert_eq!(cells[13 * W + 2], Some(Puyo::Blue));
    assert_eq!(cells[12 * W + 2], Some(Puyo::Red));
}

#[test]
fn split_pair_drops_one_half() {
    let mut cells = empty();
    cells[13 * W + 1] = Some(Puyo::Yellow);
    let mut events = Vec::new();
    let mut dropping = Vec::new();
    // a horizontal pair: the axis rests on a puyo, the child is over a gap
    let falling = vec![
        (Puyo::Red, Col(1), FieldRow(12)),
        (Puyo::Green, Col(2), FieldRow(12)),
    ];
    start_dropping(&mut cells, &mut events, &mut dropping, falling);
    assert_eq!(events, vec![GameEvent::PuyoLanded]);
    assert_eq!(cells[12 * W + 1], Some(Puyo::Red));
    assert_eq!(dropping, vec![DroppingPuyo::new(Puyo::Green, Col(2), 12, 13)]);
}

fn column_colour_counts(cells: &[Option<Puyo>], dropping: &[DroppingPuyo]) -> Vec<(usize, Puyo, usize)> {
    let colours = [Puyo::Red, Puyo::Blue, Puyo::Green, Puyo::Yellow, Puyo::Purple];
    let mut out = Vec::new();
    for c in 0..W {
        for p in colours {
            let on_field = (0..14).filter(|r| cells[r * W + c] == Some(p)).count();
            let in_air = dropping.iter().filter(|d| d.col == Col(c) && d.puyo == p).count();
            out.push((c, p, on_field + in_air));
        }
    }
    out
}

#[test]
fn gravity_keeps_every_puyo() {
    let mut cells = empty();
    let layout = [
        (0, 13, Puyo::Red),
        (0, 11, Puyo::Blue),
        (0, 4, Puyo::Blue),
        (2, 9, Puyo::Green),
        (2, 8, Puyo::Green),
        (3, 13, Puyo::Yellow),
        (3, 12, Puyo::Purple),
        (5, 0, Puyo::Red),
        (5, 6, Puyo::Yellow),
    ];
    for (c, r, p) in layout {
        cells[r * W + c] = Some(p);
    }
    let before = column_colour_counts(&cells, &[]);
    let floating = collect_floating(&mut cells);
    assert_eq!(floating.len(), 6);
    let mut events = Vec::new();
    let mut dropping = Vec::new();
    start_dropping(&mut cells, &mut events, &mut dropping, floating);
    assert_eq!(column_colour_counts(&cells, &dropping), before);
    // and every dropping puyo starts above its target
    for d in &dropping {
        assert!(d.row < d.target_row as u64 * 1_000_000);
    }
}
