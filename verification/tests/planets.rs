use planets::absorption::{merge_effects, plan_absorptions, Contact, DEBRIS_PER_COLLISION};
use planets::controls::{click_action, grabs_planet, lock_after_click, lock_camera_plan, ClickAction};
use planets::texture::{
    contrast_accent, generate_planet_texture, in_disc, palette_color, perturb_channel,
    perturb_color, planet_pixels, random_planet_style, Disc, Rgb8, ACCENT_SHIFT, PALETTE_LEN,
    SEED_RANGE,
};
use planets::ui::{
    button_style, next_disabled, thumb_color, BorderShade, ButtonFill, SliderWidgetStates,
    ThumbShade, TrackClickMode, GRAVITY_MULTIPLIER, PLANET_CREATION_SPEED, THROW_STRENGTH,
};

fn contact(first: usize, second: usize, touching: bool, first_larger: bool) -> Contact {
    Contact { first, second, touching, first_larger }
}

#[test]
fn larger_planet_absorbs_smaller() {
    let plan = plan_absorptions(&vec![true, true], &vec![contact(0, 1, true, true)]);
    assert_eq!(plan.absorbs, vec![Some(1), None]);
    assert_eq!(plan.absorbed, vec![false, true]);
}

#[test]
fn equal_radii_second_absorbs_first() {
    let plan = plan_absorptions(&vec![true, true], &vec![contact(0, 1, true, false)]);
    assert_eq!(plan.absorbs, vec![None, Some(0)]);
    assert_eq!(plan.absorbed, vec![true, false]);
}

#[test]
fn apart_planets_do_not_merge() {
    let plan = plan_absorptions(&vec![true, true], &vec![contact(0, 1, false, true)]);
    assert_eq!(plan.absorbs, vec![None, None]);
    assert_eq!(plan.absorbed, vec![false, false]);
}

#[test]
fn cooling_down_planet_does_not_merge() {
    let plan = plan_absorptions(&vec![true, false], &vec![contact(0, 1, true, true)]);
    assert_eq!(plan.absorbs, vec![None, None]);
    assert_eq!(plan.absorbed, vec![false, false]);
}

#[test]
fn each_planet_merges_once_per_frame() {
    // 0 touches 1 and 2; 1 touches 2. Only the first examined pair merges,
    // then 2 is left alone since the other pairs involve a merged body.
    let contacts = vec![
        contact(0, 1, true, true),
        contact(0, 2, true, true),
        contact(1, 2, true, false),
    ];
    let plan = plan_absorptions(&vec![true, true, true], &contacts);
    assert_eq!(plan.absorbs, vec![Some(1), None, None]);
    assert_eq!(plan.absorbed, vec![false, true, false]);
}

#[test]
fn disjoint_pairs_both_merge() {
    let contacts = vec![contact(0, 1, true, false), contact(2, 3, true, true)];
    let plan = plan_absorptions(&vec![true, true, true, true], &contacts);
    assert_eq!(plan.absorbs, vec![None, Some(0), Some(3), None]);
    assert_eq!(plan.absorbed, vec![true, false, false, true]);
}

#[test]
fn no_bodies_no_merges() {
    let plan = plan_absorptions(&vec![], &vec![]);
    assert!(plan.absorbs.is_empty());
    assert!(plan.absorbed.is_empty());
}

#[test]
fn click_spawns_only_without_forming_planet_or_ctrl() {
    assert_eq!(click_action(true, true, false, 0, false), ClickAction::SpawnForming);
    assert_eq!(click_action(true, true, false, 0, true), ClickAction::Idle);
    assert_eq!(click_action(true, true, false, 1, false), ClickAction::Grow);
}

#[test]
fn held_button_grows_and_release_releases() {
    assert_eq!(click_action(false, true, false, 1, false), ClickAction::Grow);
    assert_eq!(click_action(false, true, false, 0, false), ClickAction::Idle);
    assert_eq!(click_action(false, false, true, 1, false), ClickAction::Release);
    assert_eq!(click_action(false, false, true, 0, false), ClickAction::Idle);
    assert_eq!(click_action(false, false, false, 1, false), ClickAction::Idle);
}

#[test]
fn grabbing_skips_locked_planets() {
    assert!(grabs_planet(true, false));
    assert!(!grabs_planet(true, true));
    assert!(!grabs_planet(false, false));
}

#[test]
fn lock_click_toggles_clicked_planet_and_releases_others() {
    assert!(lock_after_click(false, true));
    assert!(!lock_after_click(true, true));
    assert!(!lock_after_click(true, false));
    assert!(!lock_after_click(false, false));
    // two clicks on the same planet give back its state
    assert_eq!(lock_after_click(lock_after_click(false, true), true), false);
    assert_eq!(lock_after_click(lock_after_click(true, true), true), true);
}

#[test]
fn camera_follows_last_locked_planet() {
    let none = lock_camera_plan(0);
    assert_eq!(none.follow, None);
    assert!(!none.reticle_visible);
    let three = lock_camera_plan(3);
    assert_eq!(three.follow, Some(2));
    assert!(three.reticle_visible);
}

#[test]
fn palette_bytes() {
    assert_eq!(PALETTE_LEN, 3);
    assert_eq!(palette_color(0), Rgb8 { r: 48, g: 160, b: 96 });
    assert_eq!(palette_color(1), Rgb8 { r: 40, g: 73, b: 201 });
    assert_eq!(palette_color(2), Rgb8 { r: 178, g: 104, b: 56 });
}

#[test]
fn channels_saturate() {
    assert_eq!(perturb_channel(10, -25), 0);
    assert_eq!(perturb_channel(250, 24), 255);
    assert_eq!(perturb_channel(100, -7), 93);
    assert_eq!(
        perturb_color(Rgb8 { r: 1, g: 2, b: 254 }, -2, 3, 5),
        Rgb8 { r: 0, g: 5, b: 255 }
    );
}

#[test]
fn distinct_accent_is_kept() {
    assert_eq!(contrast_accent(0, 1), palette_color(1));
    assert_eq!(contrast_accent(2, 0), palette_color(0));
}

#[test]
fn repeated_accent_moves_within_shift() {
    let base = palette_color(2);
    let mut moved = false;
    for _ in 0..50 {
        let a = contrast_accent(2, 2);
        moved = moved || a != base;
        for (x, y) in [(a.r, base.r), (a.g, base.g), (a.b, base.b)] {
            let d = x as i32 - y as i32;
            assert!(-ACCENT_SHIFT <= d && d < ACCENT_SHIFT);
        }
    }
    // the offsets are drawn, not all handed back as 0
    assert!(moved);
}

#[test]
fn random_style_uses_palette_and_seed_range() {
    let mut rng = rand::rng();
    let mut seeds = Vec::new();
    for _ in 0..200 {
        let s = random_planet_style(&mut rng);
        assert!(s.base < PALETTE_LEN);
        assert!(s.accent < PALETTE_LEN);
        assert!(-SEED_RANGE <= s.seed && s.seed < SEED_RANGE);
        seeds.push(s.seed);
    }
    // the seed is drawn, not a fixed bound handed back
    assert!(seeds.iter().any(|s| *s != seeds[0]));
}

#[test]
fn disc_includes_rim() {
    let d = Disc { cx: 2, cy: 2, radius: 2 };
    assert!(in_disc(2, 2, d));
    assert!(in_disc(0, 2, d));
    assert!(in_disc(4, 2, d));
    assert!(!in_disc(0, 0, d));
    assert!(!in_disc(4, 4, d));
    assert!(in_disc(u32::MAX, u32::MAX, Disc { cx: u32::MAX, cy: 0, radius: u32::MAX }));
}

#[test]
fn pixels_are_laid_out_column_by_column() {
    // 2 columns of 3 pixels, disc of radius 1 around (0, 1)
    let d = Disc { cx: 0, cy: 1, radius: 1 };
    let base = Rgb8 { r: 1, g: 2, b: 3 };
    let accent = Rgb8 { r: 7, g: 8, b: 9 };
    let noise = vec![true, false, true, false, false, false];
    let px = planet_pixels(2, 3, d, &noise, base, accent);
    assert_eq!(px.len(), 4 * 2 * 3);
    assert_eq!(
        px,
        vec![
            1, 2, 3, 255, // (0,0) on disc, low noise
            7, 8, 9, 255, // (0,1) centre
            1, 2, 3, 255, // (0,2) on disc, low noise
            0, 0, 0, 0, // (1,0) off disc
            7, 8, 9, 255, // (1,1) on the rim
            0, 0, 0, 0, // (1,2) off disc
        ]
    );
}

#[test]
fn empty_texture_has_no_bytes() {
    let d = Disc { cx: 0, cy: 0, radius: 0 };
    assert!(planet_pixels(0, 5, d, &vec![], palette_color(0), palette_color(1)).is_empty());
}

#[test]
fn texture_with_distinct_colors_is_exact() {
    let d = Disc { cx: 1, cy: 1, radius: 1 };
    let noise = vec![false; 9];
    let px = generate_planet_texture(3, 3, d, 0, 2, &noise);
    assert_eq!(px, planet_pixels(3, 3, d, &noise, palette_color(0), palette_color(2)));
    assert_eq!(&px[16..20], &[178, 104, 56, 255]);
    assert_eq!(&px[0..4], &[0, 0, 0, 0]);
}

#[test]
fn sliders_start_at_default_and_snap() {
    let s = SliderWidgetStates::with_defaults(1.0f32);
    for name in [PLANET_CREATION_SPEED, THROW_STRENGTH, GRAVITY_MULTIPLIER] {
        let st = s.slider(name).unwrap();
        assert_eq!(st.slider_value, 1.0);
        assert_eq!(st.slider_click, TrackClickMode::Snap);
    }
    assert!(s.slider("Unknown").is_none());
}

#[test]
fn setting_a_slider_keeps_the_others() {
    let mut s = SliderWidgetStates::with_defaults(1.0f32);
    s.set_slider_value(GRAVITY_MULTIPLIER, -3.5);
    assert_eq!(s.slider(GRAVITY_MULTIPLIER).unwrap().slider_value, -3.5);
    assert_eq!(s.slider(GRAVITY_MULTIPLIER).unwrap().slider_click, TrackClickMode::Snap);
    assert_eq!(s.slider(THROW_STRENGTH).unwrap().slider_value, 1.0);
    assert_eq!(s.slider(PLANET_CREATION_SPEED).unwrap().slider_value, 1.0);
}

#[test]
fn reset_restores_every_slider() {
    let mut s = SliderWidgetStates::with_defaults(1.0f32);
    s.set_slider_value(THROW_STRENGTH, 7.0);
    s.set_slider_value(PLANET_CREATION_SPEED, 0.5);
    s.reset_to_defaults(1.0);
    for name in [PLANET_CREATION_SPEED, THROW_STRENGTH, GRAVITY_MULTIPLIER] {
        assert_eq!(s.slider(name).unwrap().slider_value, 1.0);
        assert_eq!(s.slider(name).unwrap().slider_click, TrackClickMode::Snap);
    }
    s.reset_to_defaults(1.0);
    assert_eq!(s.slider(THROW_STRENGTH).unwrap().slider_value, 1.0);
}

#[test]
fn thumb_colors() {
    assert_eq!(thumb_color(true, true), ThumbShade::Disabled);
    assert_eq!(thumb_color(true, false), ThumbShade::Disabled);
    assert_eq!(thumb_color(false, true), ThumbShade::Lightened);
    assert_eq!(thumb_color(false, false), ThumbShade::Plain);
}

#[test]
fn button_styles() {
    let s = button_style(true, true, true);
    assert_eq!((s.fill, s.border), (ButtonFill::Normal, BorderShade::Gray));
    let s = button_style(false, true, true);
    assert_eq!((s.fill, s.border), (ButtonFill::Pressed, BorderShade::Red));
    let s = button_style(false, true, false);
    assert_eq!((s.fill, s.border), (ButtonFill::Hovered, BorderShade::White));
    let s = button_style(false, false, true);
    assert_eq!((s.fill, s.border), (ButtonFill::Normal, BorderShade::Black));
}

#[test]
fn toggle_key_flips_widgets() {
    assert!(next_disabled(true, false));
    assert!(!next_disabled(true, true));
    assert!(next_disabled(false, true));
    assert!(!next_disabled(false, false));
    assert!(!next_disabled(true, next_disabled(true, false)));
}

#[test]
fn merging_heavy_planet_blends_and_throws_debris() {
    let e = merge_effects(false, false, 1, true);
    assert!(e.blend_velocity);
    assert_eq!(e.debris, DEBRIS_PER_COLLISION);
    assert_eq!(DEBRIS_PER_COLLISION, 10);
}

#[test]
fn absorbing_debris_keeps_velocity() {
    let e = merge_effects(false, false, 0, false);
    assert!(!e.blend_velocity);
    assert_eq!(e.debris, 0);
}

#[test]
fn massless_merge_only_grows() {
    for (a, b) in [(true, false), (false, true), (true, true)] {
        let e = merge_effects(a, b, 1, true);
        assert!(!e.blend_velocity);
        assert_eq!(e.debris, 0);
    }
}

#[test]
fn repeated_palette_entry_texture_uses_moved_accent() {
    let d = Disc { cx: 0, cy: 0, radius: 0 };
    let px = generate_planet_texture(1, 1, d, 1, 1, &vec![false]);
    let c = palette_color(1);
    assert_eq!(px.len(), 4);
    assert_eq!(px[3], 255);
    for (x, y) in [(px[0], c.r), (px[1], c.g), (px[2], c.b)] {
        let diff = x as i32 - y as i32;
        assert!(-ACCENT_SHIFT <= diff && diff < ACCENT_SHIFT);
    }
}
