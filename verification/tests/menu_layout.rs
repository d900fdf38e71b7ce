use presentation::menu_layout::{action_label, FieldAction};
use presentation::menu_layout::{
    blink_level, book_counter, button_sprite, completion_percent, crossfade_opacity, currency_digit,
    decimal_digits, frame_tints, gauge_alpha, gauge_color, item_target_panel, play_clock, portrait_look,
    scroll_offset, slide, slot_counter, slot_y, system_panel_x, target_cursor, target_panel_x,
    technique_meter, texture_layer, unison_slot_x, white_space, wrap, BookCounter, ConditionIcon,
    PortraitLook, Tint, CURSE, DEADLY_POISON, KNOCKOUT, PARALYSIS, PETRIFY, POISON,
};

#[test]
fn lists_scroll_by_fifths_of_a_row() {
    assert_eq!(scroll_offset(2, 20), 8);
    assert_eq!(scroll_offset(-2, 20), 12);
    assert_eq!(scroll_offset(-1, 7), 6);
    assert_eq!(scroll_offset(3, 7), 4);
    assert_eq!(scroll_offset(0, 7), 0);
}

#[test]
fn descriptions_wrap_greedily_at_whole_words() {
    assert_eq!(wrap("the quick brown fox", 10), "the quick\nbrown fox");
    assert_eq!(wrap("  a\tbb  ", 1), "a\nbb");
    assert_eq!(wrap("", 5), "");
    assert_eq!(wrap("extraordinary", 3), "extraordinary");
    assert_eq!(wrap("a b c", 5), "a b c");
    assert_eq!(wrap("ab\u{3000}cd", 4), "ab\ncd");
    assert!(white_space(' ') && white_space('\u{3000}') && white_space('\n'));
    assert!(!white_space('a') && !white_space('\u{200b}'));
}

#[test]
fn crossfades_follow_the_page_once_complete() {
    assert_eq!(crossfade_opacity(255, 7), 7);
    assert_eq!(crossfade_opacity(100, 7), 100);
}

#[test]
fn font_and_cursor_layers_are_inserted_among_the_textures() {
    assert_eq!(texture_layer(0), 0);
    assert_eq!(texture_layer(17), 17);
    assert_eq!(texture_layer(18), 19);
    assert_eq!(texture_layer(29), 30);
    assert_eq!(texture_layer(30), 32);
    assert_eq!(texture_layer(31), 33);
}

#[test]
fn blinking_ramps_down_and_back_within_its_duration() {
    assert_eq!(blink_level(0, 40, 15), 255);
    assert_eq!(blink_level(5, 40, 15), 85);
    assert_eq!(blink_level(7, 40, 15), 17);
    assert_eq!(blink_level(10, 40, 15), 85);
    assert_eq!(blink_level(20, 40, 15), 255);
    assert_eq!(blink_level(45, 40, 15), 85);
}

#[test]
fn buttons_animate_their_prompts() {
    assert_eq!([button_sprite(32, 0), button_sprite(32, 30)], [4, 3]);
    assert_eq!([button_sprite(6, 0), button_sprite(6, 20)], [6, 5]);
    assert_eq!([button_sprite(33, 0), button_sprite(34, 0), button_sprite(35, 0), button_sprite(36, 0)], [1, 2, 4, 3]);
    assert_eq!(button_sprite(33, 20), 0);
    assert_eq!([button_sprite(37, 0), button_sprite(38, 25)], [25, 24]);
    assert_eq!(button_sprite(5, 0), 5);
}

#[test]
fn portraits_show_the_most_severe_condition() {
    let look = |petrified, tint, icon| PortraitLook { petrified, tint, icon };
    assert_eq!(portrait_look(0, 0), look(false, Tint::Plain, ConditionIcon::Clear));
    assert_eq!(portrait_look(KNOCKOUT | POISON, 0), look(false, Tint::Dim, ConditionIcon::Clear));
    assert_eq!(portrait_look(PETRIFY | POISON, 0), look(true, Tint::Plain, ConditionIcon::Clear));
    assert_eq!(portrait_look(KNOCKOUT | PETRIFY, 0), look(false, Tint::Dim, ConditionIcon::Clear));
    assert_eq!(portrait_look(CURSE | PARALYSIS, 0), look(false, Tint::Plain, ConditionIcon::Curse));
    assert_eq!(portrait_look(PARALYSIS, 5), look(false, Tint::Plain, ConditionIcon::Paralysis(8)));
    assert_eq!(portrait_look(PARALYSIS, 25), look(false, Tint::Plain, ConditionIcon::Paralysis(10)));
    assert_eq!(portrait_look(POISON, 17), look(false, Tint::Green, ConditionIcon::Poison(2)));
    assert_eq!(portrait_look(DEADLY_POISON, 17), look(false, Tint::Green, ConditionIcon::Poison(0)));
}

#[test]
fn gauges_warn_at_a_quarter() {
    assert_eq!(gauge_color(0, 100), 15);
    assert_eq!(gauge_color(25, 100), 14);
    assert_eq!(gauge_color(26, 100), 12);
    assert_eq!(gauge_alpha(255), 254);
    assert_eq!(gauge_alpha(128), 127);
    assert_eq!(gauge_alpha(0), 0);
}

#[test]
fn the_balance_meter_lights_its_side() {
    let meter = technique_meter(0);
    assert_eq!((meter.left_end, meter.right_end), (4, 3));
    assert_eq!(meter.segments[0], (9, 8));
    assert!(meter.segments[1..].iter().all(|s| *s == (12, 8)));
    let meter = technique_meter(35);
    assert_eq!((meter.left_end, meter.right_end), (2, 1));
    assert_eq!(&meter.segments[..5], &[(12, 5), (12, 5), (12, 5), (12, 6), (12, 8)]);
    let meter = technique_meter(-100);
    assert_eq!(
        meter.segments.iter().map(|s| s.0).collect::<Vec<_>>(),
        [9, 9, 9, 10, 10, 10, 11, 11, 11, 11]
    );
}

#[test]
fn numbers_and_clocks() {
    assert_eq!(decimal_digits(0), vec![0]);
    assert_eq!(decimal_digits(1203), vec![3, 0, 2, 1]);
    assert_eq!(decimal_digits(u32::MAX).len(), 10);
    assert_eq!(play_clock(216000 * 2 + 3600 * 5 + 10), (2, 5));
    assert_eq!(play_clock(3599), (0, 0));
    assert_eq!(currency_digit(0), (2, false));
    assert_eq!(currency_digit(3), (9, true));
    assert_eq!(currency_digit(4), (11, false));
    assert_eq!(currency_digit(6), (16, true));
}

#[test]
fn save_and_book_counters() {
    assert_eq!(slot_counter(&vec![false, true, false, true], 2), Some((1, 2)));
    assert_eq!(slot_counter(&vec![false, false], 0), None);
    assert_eq!(slot_counter(&vec![true], 0), Some((1, 1)));
    assert_eq!(book_counter(0, false, 3), BookCounter::Blank);
    assert_eq!(book_counter(5, true, 0), BookCounter::Categories(5));
    assert_eq!(book_counter(5, false, 2), BookCounter::Entry(3, 5));
    assert_eq!(completion_percent(3, 7), 42);
    assert_eq!(completion_percent(5, 0), 500);
    assert_eq!(completion_percent(1, 1), 100);
}

#[test]
fn panels_slide_in_from_the_right() {
    assert_eq!(slide(128, 100), 50);
    assert_eq!(slide(255, 256), 255);
    assert_eq!(slide(0, 256), 0);
    assert_eq!(target_panel_x(5, 255), 236);
    assert_eq!(target_panel_x(3, 0), 647);
    assert_eq!(item_target_panel(5, 255), (236, 384));
    assert_eq!(item_target_panel(2, 0), (647, 192));
    assert_eq!(target_cursor(236, 5), (440, 175));
    assert_eq!(unison_slot_x(0, 0), 72);
    assert_eq!(unison_slot_x(2, 0), 384);
    assert_eq!(unison_slot_x(0, 128), -92);
    assert_eq!(unison_slot_x(3, 128), 564);
    assert_eq!(system_panel_x(255, 0), 444);
    assert_eq!(system_panel_x(0, 0), 639);
    assert_eq!(system_panel_x(255, 255), 639);
    assert_eq!([slot_y(0, true), slot_y(2, true), slot_y(2, false), slot_y(5, false)], [120, 172, 148, 254]);
}

#[test]
fn window_corners_are_tinted_by_quarters() {
    assert_eq!(
        frame_tints([100, 40, 7, 200]),
        vec![[100, 40, 7, 200], [75, 30, 6, 200], [50, 20, 4, 200], [75, 30, 6, 200]]
    );
}

#[test]
fn field_actions_name_their_labels() {
    assert_eq!(action_label(FieldAction::Enter), "go_in");
    assert_eq!(action_label(FieldAction::Talk), "talk");
    assert_eq!(action_label(FieldAction::Shop), "shop");
    assert_eq!(action_label(FieldAction::Examine), "examine");
    assert_eq!(action_label(FieldAction::Leave), "go_out");
    assert_eq!(action_label(FieldAction::Save), "save");
}
