use puyo_sim::localization::{format_chain, score_text, strings, Lang};
use puyo_sim::puyo::{puyo_of_index, Orientation, Puyo, PuyoPuyo, Rotation};
use puyo_sim::rng::PuyoPuyoFactory;
use puyo_sim::types::{initial_position, Col, FieldRow, Position, VisibleRow};

#[test]
fn lang_ids_round_trip() {
    assert_eq!(Lang::En.id(), "en");
    assert_eq!(Lang::Ja.id(), "ja");
    assert_eq!(Lang::from_id("en"), Some(Lang::En));
    assert_eq!(Lang::from_id("ja"), Some(Lang::Ja));
    assert_eq!(Lang::from_id(Lang::Ja.id()), Some(Lang::Ja));
    assert_eq!(Lang::from_id(Lang::En.id()), Some(Lang::En));
}

#[test]
fn unknown_lang_id_is_none() {
    assert_eq!(Lang::from_id("fr"), None);
    assert_eq!(Lang::from_id(""), None);
    assert_eq!(Lang::from_id("EN"), None);
    assert_eq!(Lang::from_id("enx"), None);
}

#[test]
fn lang_display_names() {
    assert_eq!(Lang::En.display_name(), "English");
    assert_eq!(Lang::Ja.display_name(), "日本語");
}

#[test]
fn strings_per_language() {
    let en = strings(Lang::En);
    let ja = strings(Lang::Ja);
    assert_eq!(en.title_press_start, "PRESS ENTER or SPACE");
    assert_eq!(en.menu_retry_same, "Retry (same puyos)");
    assert_eq!(en.settings_title, "Settings");
    assert_eq!(ja.title_press_start, "ENTER または SPACE で開始");
    assert_eq!(ja.menu_retry_same, "同じぷよでリトライ");
    assert_eq!(ja.pause_title, "ポーズ");
    assert_eq!(ja.credits_se_label, "SE");
}

#[test]
fn chain_text_in_both_languages() {
    assert_eq!(format_chain(3, Lang::En), "3 Chain!");
    assert_eq!(format_chain(3, Lang::Ja), "3連鎖");
    assert_eq!(format_chain(0, Lang::En), "0 Chain!");
    assert_eq!(format_chain(12, Lang::Ja), "12連鎖");
    assert_eq!(format_chain(4294967295, Lang::En), "4294967295 Chain!");
}

#[test]
fn score_text_is_zero_padded() {
    assert_eq!(score_text(0), "00000000");
    assert_eq!(score_text(1230), "00001230");
    assert_eq!(score_text(12345678), "12345678");
    assert_eq!(score_text(4294967295), "4294967295");
}

#[test]
fn orientation_offsets() {
    assert_eq!(Orientation::Up.offset(), (0, -1));
    assert_eq!(Orientation::Right.offset(), (1, 0));
    assert_eq!(Orientation::Down.offset(), (0, 1));
    assert_eq!(Orientation::Left.offset(), (-1, 0));
}

#[test]
fn rotations_cycle() {
    assert_eq!(Orientation::Up.rotate(Rotation::Right), Orientation::Right);
    assert_eq!(Orientation::Right.rotate(Rotation::Right), Orientation::Down);
    assert_eq!(Orientation::Down.rotate(Rotation::Right), Orientation::Left);
    assert_eq!(Orientation::Left.rotate(Rotation::Right), Orientation::Up);
    assert_eq!(Orientation::Up.rotate(Rotation::Left), Orientation::Left);
    assert_eq!(Orientation::Left.rotate(Rotation::Left), Orientation::Down);
    let mut o = Orientation::Right;
    for _ in 0..4 {
        o = o.rotate(Rotation::Left);
    }
    assert_eq!(o, Orientation::Right);
    assert_eq!(
        Orientation::Down.rotate(Rotation::Right).rotate(Rotation::Left),
        Orientation::Down
    );
}

#[test]
fn offsets_are_neighbours() {
    for o in [Orientation::Up, Orientation::Right, Orientation::Down, Orientation::Left] {
        let (dc, dr) = o.offset();
        assert_eq!(dc.abs() + dr.abs(), 1);
    }
}

#[test]
fn new_pair_colours_and_orientation() {
    let colours = [Puyo::Red, Puyo::Blue, Puyo::Green, Puyo::Yellow, Puyo::Purple];
    for _ in 0..50 {
        let p = PuyoPuyo::new();
        assert_eq!(p.orientation(), Orientation::Up);
        assert!(colours.contains(&p.axis()));
        assert!(colours.contains(&p.child()));
    }
}

#[test]
fn pair_set_orientation_keeps_colours() {
    let mut p = PuyoPuyo::new();
    let (a, c) = (p.axis(), p.child());
    p.set_orientation(Orientation::Left);
    assert_eq!(p.orientation(), Orientation::Left);
    assert_eq!(p.axis(), a);
    assert_eq!(p.child(), c);
}

#[test]
fn puyo_index_order() {
    assert_eq!(puyo_of_index(0), Puyo::Red);
    assert_eq!(puyo_of_index(1), Puyo::Blue);
    assert_eq!(puyo_of_index(2), Puyo::Green);
    assert_eq!(puyo_of_index(3), Puyo::Yellow);
    assert_eq!(puyo_of_index(4), Puyo::Purple);
}

#[test]
fn same_seed_same_pairs() {
    let mut a = PuyoPuyoFactory::new(4, 12345);
    let mut b = PuyoPuyoFactory::new(4, 12345);
    for _ in 0..100 {
        let pa = a.create();
        let pb = b.create();
        assert_eq!(pa.axis(), pb.axis());
        assert_eq!(pa.child(), pb.child());
        assert_eq!(pa.orientation(), Orientation::Up);
    }
}

#[test]
fn factory_uses_its_palette_only() {
    for seed in [0u64, 1, 2, 99, 123456789, u64::MAX] {
        for n in 1..=5usize {
            let mut f = PuyoPuyoFactory::new(n, seed);
            let mut seen: Vec<Puyo> = Vec::new();
            for _ in 0..200 {
                let p = f.create();
                for c in [p.axis(), p.child()] {
                    if !seen.contains(&c) {
                        seen.push(c);
                    }
                }
            }
            assert!(seen.len() <= n);
        }
    }
}

#[test]
fn factory_seed_zero_equals_seed_one() {
    let mut a = PuyoPuyoFactory::new(5, 0);
    let mut b = PuyoPuyoFactory::new(5, 1);
    for _ in 0..20 {
        let pa = a.create();
        let pb = b.create();
        assert_eq!((pa.axis(), pa.child()), (pb.axis(), pb.child()));
    }
}

#[test]
fn different_seeds_differ_somewhere() {
    let mut a = PuyoPuyoFactory::new(5, 7);
    let mut b = PuyoPuyoFactory::new(5, 8);
    let mut differ = false;
    for _ in 0..50 {
        let pa = a.create();
        let pb = b.create();
        if (pa.axis(), pa.child()) != (pb.axis(), pb.child()) {
            differ = true;
        }
    }
    assert!(differ);
}

#[test]
fn positions_and_rows() {
    let p = initial_position();
    assert_eq!(p, Position::new(2, 2));
    assert_eq!(Col(3).index(), 3);
    assert_eq!(FieldRow(5).to_visible(), VisibleRow(3));
    assert_eq!(VisibleRow(0).to_field(), FieldRow(2));
    assert_eq!(FieldRow(7).index(), 7);
    assert_eq!(VisibleRow(11).index(), 11);
}

#[test]
fn new_pairs_vary() {
    let mut seen: Vec<Puyo> = Vec::new();
    for _ in 0..200 {
        let p = PuyoPuyo::new();
        for c in [p.axis(), p.child()] {
            if !seen.contains(&c) {
                seen.push(c);
            }
        }
    }
    assert!(seen.len() >= 2);
}
