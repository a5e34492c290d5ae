use ump::config::{pick_font, resolve_path_in, AudioConfig, FontChoice};
use ump::player::{solo_mask, VerticalFlow};

#[test]
fn solo_mask_mutes_all_other_used_channels() {
    let used = 0b1011; // channels 0, 1, 3
    let muted = 0;
    assert_eq!(solo_mask(used, muted, 0), 0b1010); // channels 1, 3 muted
}

#[test]
fn solo_mask_clears_when_already_sole_unmuted() {
    let used = 0b1011; // channels 0, 1, 3
    let muted = 0b1010; // 1 and 3 muted, 0 unmuted
    assert_eq!(solo_mask(used, muted, 0), 0);
}

#[test]
fn solo_mask_single_used_channel_clears() {
    let used = 0b0001;
    let muted = 0;
    // No other used channels to mute; already the sole unmuted channel.
    assert_eq!(solo_mask(used, muted, 0), 0);
}

#[test]
fn solo_mask_ignores_bits_outside_used() {
    let used = 0b0011; // channels 0, 1
    let muted = 0b0100; // channel 2 muted but not "used"
    assert_eq!(solo_mask(used, muted, 0), 0b0010);
}

#[test]
fn solo_mask_on_unused_channel_leaves_mute_state_unchanged() {
    let used = 0b1011; // channels 0, 1, 3
    let muted = 0b0010; // channel 1 already muted
    // Channel 2 isn't used: soloing it must not touch any mute state.
    assert_eq!(solo_mask(used, muted, 2), muted);
}

#[test]
fn solo_twice_clears_all_mutes() {
    let used = (1u64 << 40) | 0b101;
    let once = solo_mask(used, 0, 40);
    assert_eq!(once, 0b101);
    assert_eq!(solo_mask(used, once, 40), 0);
}

#[test]
fn vertical_flow_from_config_parses_known_values() {
    assert_eq!(VerticalFlow::from_config(Some("down")), VerticalFlow::Down);
    assert_eq!(VerticalFlow::from_config(Some("up")), VerticalFlow::Up);
}

#[test]
fn vertical_flow_from_config_defaults_to_down() {
    assert_eq!(VerticalFlow::from_config(None), VerticalFlow::Down);
    assert_eq!(VerticalFlow::from_config(Some("sideways")), VerticalFlow::Down);
}

#[test]
fn vertical_flow_round_trips_through_config() {
    for flow in [VerticalFlow::Down, VerticalFlow::Up] {
        assert_eq!(VerticalFlow::from_config(Some(flow.as_config_str())), flow);
    }
}

#[test]
fn pick_font_explicit_path_wins_over_candidates() {
    let candidates = vec!["dotgothic16-regular.ttf".to_string()];
    let choice = pick_font(Some("custom.ttf"), &candidates);
    assert_eq!(choice, FontChoice::Explicit("custom.ttf".to_string()));
}

#[test]
fn pick_font_priority_jiskan16s_beats_shinonome_beats_dotgothic16() {
    let all = vec![
        "dotgothic16-regular.ttf".to_string(),
        "shinonome-gothic-16.ttf".to_string(),
        "jf-dot-jiskan16s-1990.ttf".to_string(),
    ];
    assert_eq!(pick_font(None, &all), FontChoice::Auto("jf-dot-jiskan16s-1990.ttf".to_string()));

    let without_jiskan16s =
        vec!["dotgothic16-regular.ttf".to_string(), "shinonome-gothic-16.ttf".to_string()];
    assert_eq!(
        pick_font(None, &without_jiskan16s),
        FontChoice::Auto("shinonome-gothic-16.ttf".to_string())
    );
}

#[test]
fn pick_font_plain_jiskan16_is_ignored() {
    let candidates = vec!["jf-dot-jiskan16.ttf".to_string()];
    assert_eq!(pick_font(None, &candidates), FontChoice::NoneFound);
}

#[test]
fn pick_font_is_case_insensitive() {
    let candidates = vec!["DotGothic16-Regular.TTF".to_string()];
    assert_eq!(pick_font(None, &candidates), FontChoice::Auto("DotGothic16-Regular.TTF".to_string()));
}

#[test]
fn pick_font_empty_dir_returns_none() {
    assert_eq!(pick_font(None, &[]), FontChoice::NoneFound);
}

#[test]
fn pick_font_ties_within_priority_break_lexicographically() {
    let candidates = vec!["z-dotgothic16-extra.ttf".to_string(), "a-dotgothic16-extra.ttf".to_string()];
    assert_eq!(pick_font(None, &candidates), FontChoice::Auto("a-dotgothic16-extra.ttf".to_string()));
}

#[test]
fn pick_font_ignores_non_font_extensions() {
    let candidates = vec!["dotgothic16-regular.png".to_string()];
    assert_eq!(pick_font(None, &candidates), FontChoice::NoneFound);
}

#[test]
fn pick_font_uses_file_name_of_full_paths() {
    let candidates = vec!["/fonts/dotgothic16/readme.otf".to_string(), "/fonts/x/DotGothic16.otf".to_string()];
    assert_eq!(pick_font(None, &candidates), FontChoice::Auto("/fonts/x/DotGothic16.otf".to_string()));
}

#[test]
fn resolve_path_keeps_absolute_and_joins_relative() {
    assert_eq!(resolve_path_in("/abs/gm.sf2", Some("/cfg/ump")), "/abs/gm.sf2");
    assert_eq!(resolve_path_in("gm.sf2", Some("/cfg/ump")), "/cfg/ump/gm.sf2");
    assert_eq!(resolve_path_in("gm.sf2", None), "gm.sf2");
}

#[test]
fn audio_config_defaults_to_volume_80() {
    assert_eq!(AudioConfig::default().volume, Some(80));
}
