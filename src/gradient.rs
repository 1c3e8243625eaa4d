//! Sampling a piecewise-linear gradient at evenly spaced points.
//!
//! Stop positions are integers on any common scale: a gradient depends only on
//! the ratios of distances between positions. Each sample is computed exactly,
//! and its channels are the floor of the exact interpolated value.

use vstd::prelude::*;
use vstd::arithmetic::div_mod::{lemma_div_is_ordered, lemma_div_multiples_vanish, lemma_div_pos_is_pos, lemma_hoist_over_denominator};
use vstd::utf8::encode_utf8;
use crate::color::{Rgb8, hex_color_value, is_hex_color, parse_hex_color, random_color};
use crate::error::ColorGenerationError;
use crate::text::{debug_list, debug_list_text, decimal_string, digits, positions_string, positions_text};

verus! {

/// A color anchored at a position of the gradient's domain.
#[derive(Clone, Copy, Debug, PartialEq, Eq, Structural)]
pub struct ColorStop {
    pub position: i32,
    pub color: Rgb8,
}

/// The denominator of the sample points when `n` samples are taken.
pub open spec fn spacing(n: nat) -> int {
    if n > 1 { n - 1 } else { 1 }
}

/// Sample `j` of `n`, as a numerator over `spacing(n)`: the first stop's position
/// plus `j / (n - 1)` of the way to the last stop's position.
pub open spec fn sample_point(stops: Seq<ColorStop>, n: nat, j: int) -> int {
    stops[0].position * spacing(n) + (stops.last().position - stops[0].position) * j
}

/// The first index at or after `from` whose stop is at or past the point `t / m`
/// (the length of `stops` if there is none).
pub open spec fn first_reaching(stops: Seq<ColorStop>, t: int, m: int, from: int) -> int
    decreases stops.len() - from,
{
    if from < 0 || from >= stops.len() {
        stops.len() as int
    } else if stops[from].position * m >= t {
        from
    } else {
        first_reaching(stops, t, m, from + 1)
    }
}

/// The floor of `a + (b - a) * num / den`.
pub open spec fn mix(a: int, b: int, num: int, den: int) -> int {
    a + ((b - a) * num) / den
}

pub open spec fn mix_color(a: Rgb8, b: Rgb8, num: int, den: int) -> Rgb8 {
    Rgb8 {
        r: mix(a.r as int, b.r as int, num, den) as u8,
        g: mix(a.g as int, b.g as int, num, den) as u8,
        b: mix(a.b as int, b.b as int, num, den) as u8,
    }
}

/// The gradient's color at the point `t / m`: the first stop's color up to the
/// first stop, the last stop's color from the last stop on, and in between the
/// mix of the first stop at or past the point with the stop before it.
pub open spec fn color_at(stops: Seq<ColorStop>, t: int, m: int) -> Rgb8 {
    if t <= stops[0].position * m {
        stops[0].color
    } else if t >= stops.last().position * m {
        stops.last().color
    } else {
        let b = first_reaching(stops, t, m, 0);
        let a = b - 1;
        mix_color(
            stops[a].color,
            stops[b].color,
            t - stops[a].position * m,
            (stops[b].position - stops[a].position) * m,
        )
    }
}

/// The `n` evenly spaced samples of the gradient through `stops`, both ends included.
pub open spec fn gradient_colors(stops: Seq<ColorStop>, n: nat) -> Seq<Rgb8> {
    Seq::new(n, |j: int| color_at(stops, sample_point(stops, n, j), spacing(n)))
}

proof fn lemma_mix_falling(a: int, b: int, num: int, den: int)
    requires
        0 <= b < a,
        0 <= num <= den,
        0 < den,
    ensures
        mix(a, b, num, den) == b + ((a - b) * (den - num)) / den,
{
    let x = (a - b) * (den - num);
    assert((a - b) * (den - num) + (-(a - b)) * den == (b - a) * num) by (nonlinear_arith);
    lemma_hoist_over_denominator(x, -(a - b), den as nat);
}

proof fn lemma_scaled_quotient(d: int, num: int, den: int)
    requires
        0 <= d,
        0 <= num <= den,
        0 < den,
    ensures
        0 <= (d * num) / den <= d,
{
    assert(0 <= d * num <= d * den) by (nonlinear_arith)
        requires 0 <= d, 0 <= num <= den;
    lemma_div_pos_is_pos(d * num, den);
    lemma_div_is_ordered(d * num, d * den, den);
    assert(d * den == den * d) by (nonlinear_arith);
    lemma_div_multiples_vanish(d, den);
}

fn mix_channel(a: u8, b: u8, num: u128, den: u128) -> (r: u8)
    requires
        num <= den,
        0 < den < 0x1_0000_0000_0000_0000_0000_0000_0000,
    ensures
        r as int == mix(a as int, b as int, num as int, den as int),
{
    if b >= a {
        let d = (b - a) as u128;
        assert(d * num <= 255 * den) by (nonlinear_arith)
            requires d <= 255, num <= den;
        let q = (d * num) / den;
        proof { lemma_scaled_quotient(d as int, num as int, den as int); }
        (a as u128 + q) as u8
    } else {
        let d = (a - b) as u128;
        assert(d * (den - num) <= 255 * den) by (nonlinear_arith)
            requires d <= 255, num <= den;
        let q = (d * (den - num)) / den;
        proof {
            lemma_scaled_quotient(d as int, (den - num) as int, den as int);
            lemma_mix_falling(a as int, b as int, num as int, den as int);
        }
        (b as u128 + q) as u8
    }
}

/// A bound on the magnitude of every sample point and every stop position times
/// the spacing: positions fit in 32 bits and the spacing in 64.
spec fn point_bound() -> int {
    0x8_0000_0000_0000_0000_0000_0000
}

fn color_at_exec(stops: &Vec<ColorStop>, t: i128, m: i128) -> (c: Rgb8)
    requires
        stops@.len() >= 1,
        1 <= m <= usize::MAX,
        -point_bound() < t < point_bound(),
    ensures
        c == color_at(stops@, t as int, m as int),
{
    let k = stops.len();
    proof { position_times_spacing(stops@, m as int); }
    let first = stops[0].position as i128 * m;
    if t <= first {
        return stops[0].color;
    }
    let last = stops[k - 1].position as i128 * m;
    if t >= last {
        return stops[k - 1].color;
    }
    let mut b: usize = 1;
    assert(first_reaching(stops@, t as int, m as int, 0) == first_reaching(stops@, t as int, m as int, 1));
    while (stops[b].position as i128) * m < t
        invariant
            1 <= b < k,
            k == stops@.len(),
            stops@[b - 1].position * m < t,
            t < stops@[k - 1].position * m,
            first_reaching(stops@, t as int, m as int, 0) == first_reaching(stops@, t as int, m as int, b as int),
            forall|i: int| 0 <= i < k ==> -point_bound() / 2 < #[trigger] stops@[i].position * m < point_bound() / 2,
        decreases k - b,
    {
        b += 1;
    }
    let a = b - 1;
    let pa = stops[a].position as i128;
    let pb = stops[b].position as i128;
    assert((pb - pa) * m == pb * m - pa * m) by (nonlinear_arith);
    let num = (t - pa * m) as u128;
    let den = ((pb - pa) * m) as u128;
    let ca = stops[a].color;
    let cb = stops[b].color;
    Rgb8 {
        r: mix_channel(ca.r, cb.r, num, den),
        g: mix_channel(ca.g, cb.g, num, den),
        b: mix_channel(ca.b, cb.b, num, den),
    }
}

proof fn position_times_spacing(stops: Seq<ColorStop>, m: int)
    requires
        1 <= m <= usize::MAX,
    ensures
        forall|i: int| 0 <= i < stops.len() ==> -point_bound() / 2 < #[trigger] stops[i].position * m < point_bound() / 2,
{
    assert forall|i: int| 0 <= i < stops.len() implies -point_bound() / 2 < #[trigger] stops[i].position * m < point_bound() / 2 by {
        let p = stops[i].position as int;
        assert(-0x8000_0000 <= p < 0x8000_0000);
        assert(-point_bound() / 2 < p * m < point_bound() / 2) by (nonlinear_arith)
            requires -0x8000_0000 <= p < 0x8000_0000, 1 <= m <= 0xffff_ffff_ffff_ffff;
    }
}

/// Takes `num_steps` evenly spaced colors from the gradient through `stops`, from
/// the first stop's position to the last one's, both included.
pub fn sample_gradient(stops: &Vec<ColorStop>, num_steps: usize) -> (r: Vec<Rgb8>)
    requires
        stops@.len() >= 1,
    ensures
        r@ == gradient_colors(stops@, num_steps as nat),
{
    let k = stops.len();
    let m: i128 = if num_steps > 1 { (num_steps - 1) as i128 } else { 1 };
    let p0 = stops[0].position as i128;
    let span = stops[k - 1].position as i128 - p0;
    let ghost n = num_steps as nat;
    proof { position_times_spacing(stops@, m as int); }
    let base = p0 * m;
    let mut out: Vec<Rgb8> = Vec::new();
    let mut j: usize = 0;
    while j < num_steps
        invariant
            j <= num_steps,
            k == stops@.len(),
            k >= 1,
            m as int == spacing(n),
            n == num_steps as nat,
            p0 == stops@[0].position,
            span == stops@.last().position - stops@[0].position,
            base == p0 * m,
            -point_bound() / 2 < base < point_bound() / 2,
            out@.len() == j,
            forall|i: int| 0 <= i < j ==> #[trigger] out@[i] == color_at(stops@, sample_point(stops@, n, i), spacing(n)),
        decreases num_steps - j,
    {
        assert(-point_bound() / 2 < span * j < point_bound() / 2) by (nonlinear_arith)
            requires -0x1_0000_0000 < span < 0x1_0000_0000, 0 <= j <= 0xffff_ffff_ffff_ffff;
        let t = base + span * (j as i128);
        out.push(color_at_exec(stops, t, m));
        j += 1;
    }
    assert(out@ =~= gradient_colors(stops@, n));
    out
}

/// What a gradient is asked for: its colors as hex codes, the stop position of
/// each color in millionths, and the number of samples.
pub struct GradientOptions {
    pub colors: Vec<String>,
    pub num_steps: usize,
    pub stops: Vec<i32>,
}

/// The stops that pair each color with the position at its index.
pub open spec fn explicit_stops(colors: Seq<Seq<char>>, stops: Seq<i32>) -> Seq<ColorStop> {
    Seq::new(
        colors.len(),
        |i: int| ColorStop { position: stops[i], color: hex_color_value(colors[i]) },
    )
}

/// Three colors evenly spread over the positions 0, 0.5 and 1.
pub open spec fn palette_stops(palette: Seq<Rgb8>) -> Seq<ColorStop> {
    seq![
        ColorStop { position: 0, color: palette[0] },
        ColorStop { position: 500_000, color: palette[1] },
        ColorStop { position: 1_000_000, color: palette[2] },
    ]
}

pub open spec fn all_hex_colors(colors: Seq<Seq<char>>) -> bool {
    forall|i: int| 0 <= i < colors.len() ==> is_hex_color(#[trigger] colors[i])
}

/// The colors, the step count and the stops, one per line.
pub open spec fn mismatch_input(colors: Seq<Seq<char>>, num_steps: nat, stops: Seq<i32>) -> Seq<char> {
    debug_list_text(colors) + seq!['\n'] + digits(num_steps, 10) + seq!['\n'] + positions_text(stops)
}

pub open spec fn mismatch_advice(num_colors: nat, num_stops: nat) -> Seq<char> {
    "match number of colors: `"@ + digits(num_colors, 10) + "` with number of stops: `"@
        + digits(num_stops, 10) + "`"@
}

/// `e` reports that `colors` and `stops` differ in length.
pub open spec fn is_mismatch_error(e: ColorGenerationError, colors: Seq<Seq<char>>, num_steps: nat, stops: Seq<i32>) -> bool {
    let color_len = encode_utf8(debug_list_text(colors)).len() as usize;
    let stops_at = (color_len + digits(num_steps, 10).len() + 2) as int;
    match e {
        ColorGenerationError::ColorsAndStepsMustMatch { input, advice, color_src, stops_src } => {
            &&& input@ == mismatch_input(colors, num_steps, stops)
            &&& advice@ == mismatch_advice(colors.len(), stops.len())
            &&& color_src == (0usize, color_len)
            &&& stops_src.0 == (if stops_at > usize::MAX { usize::MAX as int } else { stops_at })
            &&& stops_src.1 == positions_text(stops).len()
        },
        _ => false,
    }
}

/// `e` names the first of `colors` that is not a hex code.
pub open spec fn is_invalid_color_error(e: ColorGenerationError, colors: Seq<Seq<char>>) -> bool {
    match e {
        ColorGenerationError::InvalidColorFormat { color } => exists|i: int|
            0 <= i < colors.len() && !is_hex_color(#[trigger] colors[i]) && color@ == colors[i]
                && forall|j: int| 0 <= j < i ==> is_hex_color(#[trigger] colors[j]),
        _ => false,
    }
}

/// The outcome when colors are given: the mismatch error when the stops are not
/// as many, else the first unreadable color, else the sampled gradient.
pub open spec fn explicit_outcome(
    r: Result<Vec<Rgb8>, ColorGenerationError>,
    colors: Seq<Seq<char>>,
    num_steps: nat,
    stops: Seq<i32>,
) -> bool {
    match r {
        Ok(v) => colors.len() == stops.len() && all_hex_colors(colors)
            && v@ == gradient_colors(explicit_stops(colors, stops), num_steps),
        Err(e) => if colors.len() != stops.len() {
            is_mismatch_error(e, colors, num_steps, stops)
        } else {
            !all_hex_colors(colors) && is_invalid_color_error(e, colors)
        },
    }
}

fn mismatch_error(colors: &Vec<String>, num_steps: usize, stops: &Vec<i32>) -> (e: ColorGenerationError)
    ensures
        is_mismatch_error(e, colors.deep_view(), num_steps as nat, stops@),
{
    let color_str = debug_list(colors);
    let steps_str = decimal_string(num_steps as u64);
    let stops_str = positions_string(stops);
    let mut input = color_str.clone();
    proof { reveal_strlit("\n"); }
    input.append("\n");
    input.append(steps_str.as_str());
    input.append("\n");
    input.append(stops_str.as_str());
    let colors_count = decimal_string(colors.len() as u64);
    let stops_count = decimal_string(stops.len() as u64);
    let mut advice = String::from_str("match number of colors: `");
    advice.append(colors_count.as_str());
    advice.append("` with number of stops: `");
    advice.append(stops_count.as_str());
    advice.append("`");
    let color_len = color_str.as_str().len();
    let stops_at = color_len.saturating_add(steps_str.as_str().unicode_len()).saturating_add(2);
    assert(input@ =~= mismatch_input(colors.deep_view(), num_steps as nat, stops@));
    assert(advice@ =~= mismatch_advice(colors@.len(), stops@.len()));
    let stops_len = stops_str.unicode_len();
    assert(color_len == encode_utf8(debug_list_text(colors.deep_view())).len() as usize);
    assert(stops_len == positions_text(stops@).len());
    assert(steps_str@.len() == digits(num_steps as nat, 10).len());
    ColorGenerationError::ColorsAndStepsMustMatch {
        input,
        advice,
        color_src: (0, color_len),
        stops_src: (stops_at, stops_len),
    }
}

/// Generates the gradient through `colors` placed at `stops`: an error when the
/// two lists differ in length or a color is not a hex code, else `num_steps`
/// evenly spaced samples.
pub fn explicit_gradient(colors: &Vec<String>, num_steps: usize, stops: &Vec<i32>) -> (r: Result<Vec<Rgb8>, ColorGenerationError>)
    requires
        colors@.len() >= 1,
    ensures
        explicit_outcome(r, colors.deep_view(), num_steps as nat, stops@),
{
    if colors.len() != stops.len() {
        return Err(mismatch_error(colors, num_steps, stops));
    }
    let ghost cs = colors.deep_view();
    let mut list: Vec<ColorStop> = Vec::new();
    let mut i: usize = 0;
    while i < colors.len()
        invariant
            i <= colors@.len(),
            colors@.len() == stops@.len(),
            cs == colors.deep_view(),
            list@.len() == i,
            forall|k: int| 0 <= k < i ==> is_hex_color(#[trigger] cs[k]),
            forall|k: int| 0 <= k < i ==> #[trigger] list@[k] == explicit_stops(cs, stops@)[k],
        decreases colors@.len() - i,
    {
        match parse_hex_color(colors[i].as_str()) {
            Some(c) => {
                list.push(ColorStop { position: stops[i], color: c });
            },
            None => {
                let color = colors[i].clone();
                let e = ColorGenerationError::InvalidColorFormat { color };
                assert(!is_hex_color(cs[i as int]));
                assert(is_invalid_color_error(e, cs));
                return Err(e);
            },
        }
        i += 1;
    }
    assert(list@ =~= explicit_stops(cs, stops@));
    Ok(sample_gradient(&list, num_steps))
}

/// Samples the gradient through three colors spread evenly over 0, 0.5 and 1.
pub fn random_gradient(palette: &[Rgb8; 3], num_steps: usize) -> (r: Vec<Rgb8>)
    ensures
        r@ == gradient_colors(palette_stops(palette@), num_steps as nat),
{
    let mut list: Vec<ColorStop> = Vec::new();
    list.push(ColorStop { position: 0, color: palette[0] });
    list.push(ColorStop { position: 500_000, color: palette[1] });
    list.push(ColorStop { position: 1_000_000, color: palette[2] });
    assert(list@ =~= palette_stops(palette@));
    sample_gradient(&list, num_steps)
}

/// Generates the gradient that `options` asks for. With no colors the stops are
/// ignored and three random colors are spread evenly; otherwise as
/// `explicit_gradient`.
pub fn generate(options: &GradientOptions) -> (r: Result<Vec<Rgb8>, ColorGenerationError>)
    ensures
        options.colors@.len() == 0 ==> (r matches Ok(v) && exists|p: Seq<Rgb8>|
            p.len() == 3 && (forall|i: int| 0 <= i < 3 ==> #[trigger] p[i].r < 255 && p[i].g < 255 && p[i].b < 255)
                && v@ == gradient_colors(palette_stops(p), options.num_steps as nat)),
        options.colors@.len() > 0 ==> explicit_outcome(
            r,
            options.colors.deep_view(),
            options.num_steps as nat,
            options.stops@,
        ),
{
    if options.colors.len() == 0 {
        let palette = [random_color(), random_color(), random_color()];
        let v = random_gradient(&palette, options.num_steps);
        assert(palette@.len() == 3);
        Ok(v)
    } else {
        explicit_gradient(&options.colors, options.num_steps, &options.stops)
    }
}

/// A gradient has exactly as many samples as asked for.
pub proof fn sample_count(stops: Seq<ColorStop>, n: nat)
    ensures
        gradient_colors(stops, n).len() == n,
{
}

/// When as many stops as colors are given and every color is a hex code,
/// generation succeeds with exactly `num_steps` colors.
pub proof fn matched_input_succeeds(
    r: Result<Vec<Rgb8>, ColorGenerationError>,
    colors: Seq<Seq<char>>,
    num_steps: nat,
    stops: Seq<i32>,
)
    requires
        explicit_outcome(r, colors, num_steps, stops),
        colors.len() == stops.len(),
        colors.len() >= 1,
        all_hex_colors(colors),
    ensures
        r matches Ok(v) && v@.len() == num_steps,
{
}

/// Zero steps give no colors, whatever the stops (random ones included).
pub proof fn no_steps_no_colors(stops: Seq<ColorStop>)
    ensures
        gradient_colors(stops, 0) == Seq::<Rgb8>::empty(),
{
    assert(gradient_colors(stops, 0) =~= Seq::<Rgb8>::empty());
}

/// Colors and stops of different lengths give the mismatch error, and no colors.
pub proof fn mismatch_fails(
    r: Result<Vec<Rgb8>, ColorGenerationError>,
    colors: Seq<Seq<char>>,
    num_steps: nat,
    stops: Seq<i32>,
)
    requires
        explicit_outcome(r, colors, num_steps, stops),
        colors.len() != stops.len(),
    ensures
        r matches Err(e) && is_mismatch_error(e, colors, num_steps, stops),
{
}

/// A single stop gives `n` copies of its color, wherever it stands.
pub proof fn single_stop_repeats(stops: Seq<ColorStop>, n: nat)
    requires
        stops.len() == 1,
    ensures
        gradient_colors(stops, n) == Seq::new(n, |j: int| stops[0].color),
{
    assert forall|j: int| 0 <= j < n implies #[trigger] gradient_colors(stops, n)[j] == stops[0].color by {
        let p = stops[0].position as int;
        assert((p - p) * j == 0) by (nonlinear_arith);
    }
    assert(gradient_colors(stops, n) =~= Seq::new(n, |j: int| stops[0].color));
}

/// The first sample is the first stop's color; when the last stop lies past the
/// first, the last of two or more samples is the last stop's color.
pub proof fn ends_are_stop_colors(stops: Seq<ColorStop>, n: nat)
    requires
        stops.len() >= 1,
        n >= 1,
    ensures
        gradient_colors(stops, n)[0] == stops[0].color,
        n >= 2 && stops[0].position < stops.last().position
            ==> gradient_colors(stops, n)[n - 1] == stops.last().color,
{
    let m = spacing(n);
    let p0 = stops[0].position as int;
    let pl = stops.last().position as int;
    assert(sample_point(stops, n, 0) == p0 * m);
    if n >= 2 {
        assert(p0 * m + (pl - p0) * (n - 1) == pl * m) by (nonlinear_arith)
            requires m == n - 1;
        if p0 < pl {
            assert(pl * m > p0 * m) by (nonlinear_arith)
                requires p0 < pl, m >= 1;
        }
    }
}

} // verus!
