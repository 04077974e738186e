use sort_visualizer::algorithms::{BubbleSort, QuickSort};
use sort_visualizer::event::Event;
use sort_visualizer::output::{run, tile, Fault, Palette, Shade, Tower, Towers};

fn plain() -> Palette {
    Palette::new(String::new(), String::new(), String::new())
}

fn lettered() -> Palette {
    Palette::new("w".to_string(), "r".to_string(), "g".to_string())
}

fn heights(towers: &Towers) -> Vec<u16> {
    towers.towers().iter().map(|tower| tower.get_heigth()).collect()
}

#[test]
fn place_place_swap() {
    let mut towers = Towers::new((80, 24));
    towers.process(Event::Place { index: 0, height: 16 });
    towers.process(Event::Place { index: 1, height: 9 });
    towers.process(Event::Swap { left: 0, right: 1 });
    assert_eq!(heights(&towers), vec![9, 16]);
    assert_eq!(towers.towers()[0], Tower { x: 0, heigth: 9 });
    assert_eq!(towers.towers()[1], Tower { x: 1, heigth: 16 });
}

#[test]
fn clear_without_towers_only_blanks() {
    let mut towers = Towers::with_palette((80, 24), plain());
    let written = towers.clear();
    assert_eq!(written, vec!["\u{1b}[2J".to_string()]);
    assert!(towers.towers().is_empty());
    let written = towers.process(Event::Clear);
    assert_eq!(written, vec!["\u{1b}[2J".to_string()]);
    assert!(towers.towers().is_empty());
}

#[test]
fn clear_discards_every_tower() {
    let mut towers = Towers::with_palette((80, 24), plain());
    towers.place(0, 3);
    towers.place(1, 4);
    let written = towers.clear();
    assert_eq!(written, vec!["\u{1b}[2J".to_string()]);
    assert!(towers.towers().is_empty());
}

#[test]
fn tile_ramp() {
    assert_eq!(tile(0), "\u{2581}");
    assert_eq!(tile(3), "\u{2584}");
    assert_eq!(tile(7), "\u{2588}");
}

#[test]
fn get_heigth_returns_the_height() {
    assert_eq!(Tower::new(3, 41).get_heigth(), 41);
    assert_eq!(Tower::new(3, 41), Tower { x: 3, heigth: 41 });
}

#[test]
fn shades_are_white_red_green() {
    assert_eq!(Shade::Idle.rgb(), (255, 255, 255));
    assert_eq!(Shade::Swapping.rgb(), (255, 0, 0));
    assert_eq!(Shade::Confirmed.rgb(), (0, 255, 0));
}

#[test]
fn print_a_short_tower() {
    let tower = Tower::new(0, 5);
    assert_eq!(tower.print((80, 24), "<ink>"), "\u{1b}[24;1H<ink>\u{2586}");
}

#[test]
fn print_a_tower_of_height_zero() {
    let tower = Tower::new(9, 0);
    assert_eq!(tower.print((80, 24), ""), "\u{1b}[24;10H\u{2581}");
}

#[test]
fn print_a_tower_with_full_rows() {
    let tower = Tower::new(2, 16);
    let expected = "\u{1b}[23;3H*\u{2588}\u{1b}[24;3H*\u{2588}\u{1b}[22;3H*\u{2581}";
    assert_eq!(tower.print((80, 24), "*"), expected);
}

#[test]
fn print_a_tower_that_reaches_the_top() {
    let tower = Tower::new(0, 17);
    let expected = "\u{1b}[1;1H\u{2588}\u{1b}[2;1H\u{2588}\u{1b}[0;1H\u{2582}";
    assert_eq!(tower.print((10, 2), ""), expected);
}

#[test]
fn print_in_a_wide_column() {
    let tower = Tower::new(65534, 8);
    let expected = "\u{1b}[300;65535H\u{2588}\u{1b}[299;65535H\u{2581}";
    assert_eq!(tower.print((65535, 300), ""), expected);
}

#[test]
fn clear_a_tower() {
    let tower = Tower::new(2, 16);
    assert_eq!(tower.clear((80, 24)), "\u{1b}[22;3H \u{1b}[23;3H \u{1b}[24;3H ");
    let tower = Tower::new(0, 7);
    assert_eq!(tower.clear((80, 24)), "\u{1b}[24;1H ");
}

#[test]
fn native_palette_has_colour_or_none() {
    let palette = Palette::detect();
    let idle = palette.code(Shade::Idle);
    assert!(idle == "\u{1b}[38;2;255;255;255m" || idle.is_empty());
    let swapping = palette.code(Shade::Swapping);
    assert!(swapping == "\u{1b}[38;2;255;0;0m" || swapping.is_empty());
    let confirmed = palette.code(Shade::Confirmed);
    assert!(confirmed == "\u{1b}[38;2;0;255;0m" || confirmed.is_empty());
}

#[test]
fn new_renderer_uses_the_native_palette() {
    let mut towers = Towers::new((80, 24));
    let ink = towers.inks().code(Shade::Idle).to_string();
    assert!(ink == "\u{1b}[38;2;255;255;255m" || ink.is_empty());
    let written = towers.place(0, 1);
    assert_eq!(written, vec![format!("\u{1b}[24;1H{}\u{2582}", ink)]);
}

#[test]
fn place_paints_at_rest() {
    let mut towers = Towers::with_palette((80, 24), lettered());
    let written = towers.place(0, 9);
    assert_eq!(written, vec!["\u{1b}[24;1Hw\u{2588}\u{1b}[23;1Hw\u{2582}".to_string()]);
    assert_eq!(towers.towers(), &vec![Tower { x: 0, heigth: 9 }]);
}

#[test]
fn place_overwrites_or_appends() {
    let mut towers = Towers::with_palette((80, 24), plain());
    towers.place(0, 1);
    towers.place(1, 2);
    towers.place(0, 7);
    assert_eq!(towers.towers(), &vec![Tower { x: 0, heigth: 7 }, Tower { x: 1, heigth: 2 }]);
    towers.place(5, 3);
    assert_eq!(towers.towers().len(), 3);
    assert_eq!(towers.towers()[2], Tower { x: 5, heigth: 3 });
}

#[test]
fn swap_erases_flashes_and_settles() {
    let mut towers = Towers::with_palette((80, 24), lettered());
    towers.place(0, 9);
    towers.place(1, 2);
    let written = towers.swap(0, 1);
    let expected = vec![
        "\u{1b}[23;1H \u{1b}[24;1H \u{1b}[24;2H ".to_string(),
        "\u{1b}[24;1Hr\u{2583}\u{1b}[24;2Hr\u{2588}\u{1b}[23;2Hr\u{2582}".to_string(),
        "\u{1b}[24;1Hw\u{2583}\u{1b}[24;2Hw\u{2588}\u{1b}[23;2Hw\u{2582}".to_string(),
    ];
    assert_eq!(written, expected);
    assert_eq!(heights(&towers), vec![2, 9]);
}

#[test]
fn swap_with_itself_keeps_the_height() {
    let mut towers = Towers::with_palette((80, 24), plain());
    towers.place(0, 4);
    let written = towers.swap(0, 0);
    assert_eq!(written.len(), 3);
    assert_eq!(heights(&towers), vec![4]);
}

#[test]
fn verify_paints_confirmed_and_keeps_the_towers() {
    let mut towers = Towers::with_palette((80, 24), lettered());
    towers.place(0, 9);
    towers.place(1, 2);
    let written = towers.verify(1);
    assert_eq!(written, vec!["\u{1b}[24;2Hg\u{2583}".to_string()]);
    assert_eq!(heights(&towers), vec![9, 2]);
}

#[test]
fn accepts_what_fits_and_exists() {
    let mut towers = Towers::with_palette((80, 2), plain());
    assert!(towers.accepts(&Event::Clear));
    assert!(towers.accepts(&Event::Place { index: 0, height: 23 }));
    assert!(!towers.accepts(&Event::Place { index: 0, height: 24 }));
    assert!(!towers.accepts(&Event::Place { index: 65535, height: 1 }));
    assert!(!towers.accepts(&Event::Swap { left: 0, right: 1 }));
    assert!(!towers.accepts(&Event::VerifyStep { index: 0 }));
    towers.place(0, 3);
    towers.place(1, 16);
    assert!(towers.accepts(&Event::VerifyStep { index: 1 }));
    assert!(!towers.accepts(&Event::VerifyStep { index: 2 }));
    assert!(!towers.accepts(&Event::Swap { left: 0, right: 1 }));
    towers.place(1, 15);
    assert!(towers.accepts(&Event::Swap { left: 0, right: 1 }));
    assert!(!towers.accepts(&Event::Swap { left: 0, right: 2 }));
}

#[test]
fn process_does_what_the_event_says() {
    let mut towers = Towers::with_palette((80, 24), lettered());
    let written = towers.process(Event::Place { index: 0, height: 2 });
    assert_eq!(written, vec!["\u{1b}[24;1Hw\u{2583}".to_string()]);
    let written = towers.process(Event::VerifyStep { index: 0 });
    assert_eq!(written, vec!["\u{1b}[24;1Hg\u{2583}".to_string()]);
    let written = towers.process(Event::Swap { left: 0, right: 0 });
    assert_eq!(written.len(), 3);
    let written = towers.process(Event::Clear);
    assert_eq!(written, vec!["\u{1b}[2J".to_string()]);
    assert!(towers.towers().is_empty());
}

#[test]
fn renderer_mirrors_a_bubble_sort_run() {
    let mut strategy = BubbleSort::new(40);
    strategy.sort();
    let mut towers = Towers::with_palette((40, 24), plain());
    for emission in strategy.engine().emissions() {
        assert!(towers.accepts(&emission.event));
        towers.process(emission.event);
    }
    let shown: Vec<usize> = heights(&towers).iter().map(|&h| h as usize).collect();
    assert_eq!(&shown, strategy.engine().values());
}

#[test]
fn renderer_mirrors_a_quick_sort_run() {
    let mut strategy = QuickSort::from_sequence(vec![5, 3, 8, 4, 2]);
    strategy.sort();
    let mut towers = Towers::with_palette((40, 24), plain());
    for emission in strategy.engine().emissions() {
        assert!(towers.accepts(&emission.event));
        towers.process(emission.event);
    }
    assert_eq!(heights(&towers), vec![2, 3, 4, 5, 8]);
}

#[test]
fn records_drive_the_renderer() {
    let mut strategy = BubbleSort::from_sequence(vec![3, 1, 2]);
    strategy.sort();
    let mut towers = Towers::with_palette((10, 10), plain());
    for emission in strategy.engine().emissions() {
        let record = emission.event.encode();
        let event = Event::decode(record).unwrap();
        towers.process(event);
    }
    assert_eq!(heights(&towers), vec![1, 2, 3]);
}

#[test]
fn run_carries_out_a_record() {
    let mut towers = Towers::with_palette((80, 24), lettered());
    let written = run(&mut towers, [0, 0, 2]);
    assert_eq!(written, Ok(vec!["\u{1b}[24;1Hw\u{2583}".to_string()]));
    assert_eq!(towers.towers(), &vec![Tower { x: 0, heigth: 2 }]);
    let written = run(&mut towers, [2, 7, 0]);
    assert_eq!(written, Ok(vec!["\u{1b}[24;1Hg\u{2583}".to_string()]));
    let written = run(&mut towers, [3, 0, 0]);
    assert_eq!(written, Ok(vec!["\u{1b}[2J".to_string()]));
    assert!(towers.towers().is_empty());
}

#[test]
fn run_turns_down_an_unknown_kind() {
    let mut towers = Towers::with_palette((80, 24), plain());
    towers.place(0, 2);
    assert_eq!(run(&mut towers, [4, 0, 0]), Err(Fault::UnknownKind));
    assert_eq!(towers.towers(), &vec![Tower { x: 0, heigth: 2 }]);
}

#[test]
fn run_turns_down_what_the_towers_do_not_admit() {
    let mut towers = Towers::with_palette((80, 3), plain());
    towers.place(0, 2);
    assert_eq!(run(&mut towers, [1, 0, 1]), Err(Fault::Inadmissible));
    assert_eq!(run(&mut towers, [2, 0, 1]), Err(Fault::Inadmissible));
    assert_eq!(run(&mut towers, [0, 1, 32]), Err(Fault::Inadmissible));
    assert_eq!(towers.towers(), &vec![Tower { x: 0, heigth: 2 }]);
    assert!(run(&mut towers, [0, 1, 31]).is_ok());
}
