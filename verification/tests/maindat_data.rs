use digger_decoder::maindat::{MainDat, MainDatError};

fn zero_sections() -> Vec<Vec<u8>> {
    vec![
        vec![0; 21104], // lemming animations
        vec![0; 388],   // masks and countdown digits
        vec![0; 8384],  // skill panel, digits, game font
        vec![0; 61968], // menu imagery
        vec![0; 36080], // menu animations
        vec![],         // unused here
        vec![0; 8224],  // low-performance skill panel and font
    ]
}

#[test]
fn test_maindat_needs_seven_sections() {
    let sections: Vec<Vec<u8>> = vec![vec![], vec![], vec![]];
    match MainDat::parse(&sections) {
        Err(e) => assert_eq!(e, MainDatError::NotEnoughSections),
        Ok(_) => panic!("expected too few sections to fail"),
    }
}

#[test]
fn test_maindat_layout_of_zeroed_sections() {
    let sections = zero_sections();
    let m = MainDat::parse(&sections).unwrap();
    // animation table dimensions at their documented offsets
    assert_eq!(m.lemming_animations.walking_right.width, 8);
    assert_eq!(m.lemming_animations.walking_right.height, 16);
    assert_eq!(m.lemming_animations.walking_right.frames.len(), 10);
    assert_eq!(m.lemming_animations.digging.frames.len(), 14);
    assert_eq!(m.lemming_animations.explosion.frames.len(), 32);
    // stencils
    assert_eq!(m.masks.bash_right.frames.len(), 4);
    assert_eq!(m.masks.bash_right.frames[0].len(), 160);
    assert_eq!(m.masks.explosion.frames.len(), 1);
    // countdown digits: one-plane images, all transparent on zero input
    assert_eq!(m.countdown_numbers.len(), 10);
    assert_eq!(m.countdown_numbers[0].bitmap, vec![0u32; 64]);
    // skill panel: colour index 0 of the game palette is transparent
    assert_eq!(m.skill_panel_high_perf.width, 320);
    assert_eq!(m.skill_panel_high_perf.height, 40);
    assert_eq!(m.skill_panel_high_perf.bitmap[0], 0);
    // fonts
    assert_eq!(m.game_font_high_perf.digits.len(), 10);
    assert_eq!(m.game_font_high_perf.letters.len(), 26);
    assert_eq!(m.game_font_high_perf.percent.width, 8);
    assert_eq!(m.game_font_high_perf.percent.height, 16);
    // the menu background paints palette entry 0 as solid black
    assert_eq!(m.main_menu.background.width, 320);
    assert_eq!(m.main_menu.background.height, 104);
    assert_eq!(m.main_menu.background.bitmap[0], 0xff000000);
    assert_eq!(m.main_menu.menu_font.frames.len(), 16);
    assert_eq!(m.main_menu.left_scroller.width, 16);
    assert_eq!(m.main_menu.left_scroller.height, 48);
    // the second skill panel and font live in the last section
    assert_eq!(m.skill_panel.width, 320);
    assert_eq!(m.game_font.letters.len(), 26);
}

#[test]
fn test_skill_digits_dimensions() {
    let sections = zero_sections();
    let m = MainDat::parse(&sections).unwrap();
    assert_eq!(m.skill_number_digits.left.len(), 10);
    assert_eq!(m.skill_number_digits.right.len(), 10);
    assert_eq!(m.skill_number_digits.left[0].width, 8);
    assert_eq!(m.skill_number_digits.right[9].height, 8);
}
