use gen_color::{
    explicit_gradient, generate, random_gradient, sample_gradient, ColorGenerationError, ColorStop,
    GradientOptions, Rgb8,
};

fn rgb(r: u8, g: u8, b: u8) -> Rgb8 {
    Rgb8 { r, g, b }
}

fn strings(items: &[&str]) -> Vec<String> {
    items.iter().map(|s| s.to_string()).collect()
}

fn colors_of(r: Result<Vec<Rgb8>, ColorGenerationError>) -> Vec<Rgb8> {
    match r {
        Ok(v) => v,
        Err(e) => panic!("unexpected error: {:?}", e),
    }
}

#[test]
fn red_to_blue_in_five_steps() {
    let r = explicit_gradient(&strings(&["#ff0000", "#0000ff"]), 5, &vec![0, 1_000_000]);
    assert_eq!(
        colors_of(r),
        vec![
            rgb(0xff, 0, 0),
            rgb(0xbf, 0, 0x3f),
            rgb(0x7f, 0, 0x7f),
            rgb(0x3f, 0, 0xbf),
            rgb(0, 0, 0xff),
        ]
    );
}

#[test]
fn black_to_white_ends() {
    let colors = strings(&["#000000", "#ffffff"]);
    let stops = vec![0, 1_000_000];
    assert_eq!(colors_of(explicit_gradient(&colors, 2, &stops)), vec![rgb(0, 0, 0), rgb(255, 255, 255)]);
    assert_eq!(
        colors_of(explicit_gradient(&colors, 3, &stops)),
        vec![rgb(0, 0, 0), rgb(0x7f, 0x7f, 0x7f), rgb(255, 255, 255)]
    );
}

#[test]
fn one_step_is_first_color() {
    let colors = strings(&["#102030", "#ffffff"]);
    assert_eq!(colors_of(explicit_gradient(&colors, 1, &vec![0, 1_000_000])), vec![rgb(0x10, 0x20, 0x30)]);
}

#[test]
fn matched_lengths_give_num_steps_colors() {
    let colors = strings(&["#123456", "#abcdef", "#000000"]);
    let v = colors_of(explicit_gradient(&colors, 17, &vec![0, 300_000, 1_000_000]));
    assert_eq!(v.len(), 17);
    assert_eq!(v[0], rgb(0x12, 0x34, 0x56));
    assert_eq!(v[16], rgb(0, 0, 0));
}

#[test]
fn zero_steps_give_nothing() {
    let colors = strings(&["#ff0000", "#0000ff"]);
    assert!(colors_of(explicit_gradient(&colors, 0, &vec![0, 1_000_000])).is_empty());
    let options = GradientOptions { colors: Vec::new(), num_steps: 0, stops: Vec::new() };
    assert!(colors_of(generate(&options)).is_empty());
}

#[test]
fn mismatch_is_reported() {
    let colors = strings(&["#ff0000", "#0000ff"]);
    match explicit_gradient(&colors, 10, &vec![0]) {
        Err(ColorGenerationError::ColorsAndStepsMustMatch { input, advice, color_src, stops_src }) => {
            assert_eq!(input, "[\"#ff0000\", \"#0000ff\"]\n10\n[0.0]");
            assert_eq!(advice, "match number of colors: `2` with number of stops: `1`");
            assert_eq!(color_src, (0, 22));
            assert_eq!(stops_src, (26, 5));
        }
        other => panic!("unexpected outcome: {:?}", other),
    }
}

#[test]
fn mismatch_lists_positions_in_decimal() {
    let colors = strings(&["#fff"]);
    match explicit_gradient(&colors, 3, &vec![0, 500_000, -1_250_000]) {
        Err(ColorGenerationError::ColorsAndStepsMustMatch { input, stops_src, .. }) => {
            assert_eq!(input, "[\"#fff\"]\n3\n[0.0, 0.5, -1.25]");
            assert_eq!(stops_src, (11, 17));
        }
        other => panic!("unexpected outcome: {:?}", other),
    }
}

#[test]
fn mismatch_through_generate() {
    let options = GradientOptions { colors: strings(&["#ff0000"]), num_steps: 4, stops: Vec::new() };
    assert!(matches!(generate(&options), Err(ColorGenerationError::ColorsAndStepsMustMatch { .. })));
}

#[test]
fn unreadable_color_is_reported() {
    let colors = strings(&["#ff0000", "#zz0000", "#nope"]);
    match explicit_gradient(&colors, 3, &vec![0, 1, 2]) {
        Err(ColorGenerationError::InvalidColorFormat { color }) => assert_eq!(color, "#zz0000"),
        other => panic!("unexpected outcome: {:?}", other),
    }
}

#[test]
fn no_colors_ignore_stops() {
    let options = GradientOptions { colors: Vec::new(), num_steps: 7, stops: vec![5, 3, 9, 1] };
    assert_eq!(colors_of(generate(&options)).len(), 7);
}

#[test]
fn single_stop_repeats_its_color() {
    let v = colors_of(explicit_gradient(&strings(&["#336699"]), 4, &vec![700_000]));
    assert_eq!(v, vec![rgb(0x33, 0x66, 0x99); 4]);
}

#[test]
fn random_palette_is_spread_evenly() {
    let palette = [rgb(0, 0, 0), rgb(200, 100, 50), rgb(0, 0, 0)];
    assert_eq!(
        random_gradient(&palette, 5),
        vec![rgb(0, 0, 0), rgb(100, 50, 25), rgb(200, 100, 50), rgb(100, 50, 25), rgb(0, 0, 0)]
    );
}

#[test]
fn positions_outside_clamp_and_descending_stops() {
    let stops = vec![
        ColorStop { position: 10, color: rgb(10, 20, 30) },
        ColorStop { position: 0, color: rgb(200, 200, 200) },
    ];
    assert_eq!(sample_gradient(&stops, 3), vec![rgb(10, 20, 30); 3]);
}

#[test]
fn falling_channel_floors() {
    let stops = vec![
        ColorStop { position: 0, color: rgb(10, 0, 255) },
        ColorStop { position: 3, color: rgb(0, 10, 0) },
    ];
    // a third of the way: 10 - 10/3 = 6.67, 10/3 = 3.33, 255 - 85 = 170
    assert_eq!(sample_gradient(&stops, 4)[1], rgb(6, 3, 170));
}
