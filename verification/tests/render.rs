use crtsim::crt::config::{ColorMode, Config, Phase};
use crtsim::crt::render::{
    bloom_size, plan, surface_format, Eye, Next, Params, PrepareOn, RenderError, Sequence,
    SurfaceFormat,
};
use crtsim::number::Real32;

fn single(x: f32) -> Real32 {
    Real32 { bits: x.to_bits() }
}

fn value(x: Real32) -> f32 {
    f32::from_bits(x.bits)
}

fn params(c: &Config) -> Params {
    let eye = Eye { distance: single(1.), mvp: [[single(0.); 4]; 4] };
    Params::new(c, (256, 224), (320, 240), eye)
}

#[test]
fn ntsc_blending_moves_the_two_phases_towards_each_other() {
    let artifact_mix = |phase, ntsc_blending, tick| {
        let c = Config {
            phase,
            ntsc_blending: single(ntsc_blending),
            ..Config::default()
        };
        let mut params = params(&c);
        params.tick(c.phase, c.ntsc_blending, tick);
        value(params.signal[3])
    };
    // Unblended, the public source's switch between the two patterns.
    assert_eq!(artifact_mix(Phase::A, 0., 0), 0.);
    assert_eq!(artifact_mix(Phase::B, 0., 0), 1.);
    assert_eq!(artifact_mix(Phase::Alternating, 0., 7), 1.);
    // Super Win the Game's 0.35: each tick mixes in some of the other pattern.
    assert_eq!(artifact_mix(Phase::A, 0.35, 0), 0.35);
    assert_eq!(artifact_mix(Phase::B, 0.35, 0), 0.65);
    assert_eq!(artifact_mix(Phase::Alternating, 0.35, 4), 0.35);
    assert_eq!(artifact_mix(Phase::Alternating, 0.35, 5), 0.65);
    // Half-way, every tick shows the average, as stable phase always does.
    assert_eq!(artifact_mix(Phase::Alternating, 0.5, 1), 0.5);
    assert_eq!(artifact_mix(Phase::Stable, 0.35, 0), 0.5);
}

#[test]
fn a_plan_says_what_is_rendered_or_why_not() {
    let c = Config { output: "641x361".into(), ..Config::default() };
    let made = plan(&c, (256, 224), 8192, PrepareOn::Gpu).unwrap();
    assert_eq!((made.signal, made.output), ((256, 224), (641, 361)));
    assert_eq!(made.surface, SurfaceFormat::Byte);
    assert!(made.prepare_on_gpu);
    assert!(!plan(&c, (256, 224), 8192, PrepareOn::Cpu).unwrap().prepare_on_gpu);
    // A source past what a texture can be is prepared elsewhere.
    assert!(!plan(&c, (9000, 10), 8192, PrepareOn::Gpu).unwrap().prepare_on_gpu);
    let wide = Config { output: "9000x10".into(), ..Config::default() };
    assert_eq!(
        plan(&wide, (256, 224), 8192, PrepareOn::Gpu).unwrap_err(),
        RenderError::TextureLimit
    );
    let bad = Config { warmup: 241, ..Config::default() };
    assert!(matches!(
        plan(&bad, (256, 224), 8192, PrepareOn::Gpu),
        Err(RenderError::Config(_))
    ));
    let linear = Config {
        output: "8000x8000".into(),
        signal: "8000x8000".into(),
        color_mode: ColorMode::LinearLight,
        ..Config::default()
    };
    assert_eq!(plan(&linear, (8, 8), 16384, PrepareOn::Gpu).unwrap_err(), RenderError::Budget);
    assert_eq!(surface_format(ColorMode::LinearLight), SurfaceFormat::Half);
    assert_eq!(bloom_size((1920, 1080)), (120, 67));
}

#[test]
fn a_render_ticks_through_its_warmup_and_a_sequence_keeps_its_history() {
    let c = Config { output: "64x48".into(), warmup: 2, ..Config::default() };
    let made = plan(&c, (256, 224), 8192, PrepareOn::Gpu).unwrap();
    let mut sequence = Sequence::default();
    let mut run = sequence.start(&made, c.warmup).unwrap();
    let mut ticks = vec![];
    let mut fractions = vec![];
    loop {
        match run.next(&mut sequence, false).unwrap() {
            Next::Tick { tick, reads, writes, report } => {
                assert_ne!(reads, writes);
                ticks.push(tick);
                fractions.extend(report.map(|p| value(p.fraction)));
            }
            Next::Surface { .. } => {}
            Next::Done => break,
        }
    }
    assert_eq!(ticks, [0, 1, 2]);
    assert!(fractions.windows(2).all(|w| w[0] <= w[1]));
    // The next frame goes on from where the last one ended, with one tick.
    let mut run = sequence.start(&made, 0).unwrap();
    assert!(matches!(run.next(&mut sequence, false), Ok(Next::Tick { tick: 3, .. })));
    assert_eq!(run.next(&mut sequence, true).unwrap_err(), RenderError::Cancelled);
    // A sequence does not change size.
    let other = plan(
        &Config { output: "65x48".into(), ..Config::default() },
        (256, 224),
        8192,
        PrepareOn::Gpu,
    )
    .unwrap();
    assert_eq!(sequence.start(&other, 0).unwrap_err(), RenderError::Sequence);
}
