use rsfx::aspect_ratio::AspectRatio;
use rsfx::graphics_settings::{GraphicsSettings, RenderResolution};
use rsfx::input::State;
use rsfx::{Rsfx, TICK_RATE};

#[test]
fn default_graphics_settings() {
    let s = GraphicsSettings::new();
    assert!(!s.vsync);
    assert!(s.fullscreen);
    assert_eq!(s.render_resolution, RenderResolution::W854h480);
}

#[test]
fn framebuffer_sizes() {
    assert_eq!(RenderResolution::W427h240.framebuffer_size(1920, 1080), (427, 240));
    assert_eq!(RenderResolution::W640h360.framebuffer_size(1920, 1080), (640, 360));
    assert_eq!(RenderResolution::W854h480.framebuffer_size(1920, 1080), (854, 480));
    assert_eq!(RenderResolution::Native.framebuffer_size(1920, 1080), (1920, 1080));
}

#[test]
fn aspect_ratio_classes() {
    assert_eq!(AspectRatio::from(1920, 1080), AspectRatio::R16by9);
    assert_eq!(AspectRatio::from(4096, 2160), AspectRatio::WiderThan16by9);
    assert_eq!(AspectRatio::from(800, 600), AspectRatio::NarrowerThan16by9);
    assert_eq!(AspectRatio::from(1780, 1000), AspectRatio::R16by9);
    assert_eq!(AspectRatio::from(1781, 1000), AspectRatio::WiderThan16by9);
    assert_eq!(AspectRatio::from(640, 0), AspectRatio::WiderThan16by9);
    assert_eq!(AspectRatio::from(0, 0), AspectRatio::NarrowerThan16by9);
    assert_eq!(AspectRatio::from(-1920, -1080), AspectRatio::R16by9);
}

#[test]
fn tick_waits_for_a_full_tick() {
    let r = Rsfx::new();
    assert_eq!(TICK_RATE, 16);
    assert_eq!(r.tick(1000, 1010), None);
    assert_eq!(r.tick(1000, 1016), Some(16));
    assert_eq!(r.tick(1000, 1100), Some(100));
    assert_eq!(r.tick(1000, 900), None);
}

#[test]
fn states_compare() {
    assert_ne!(State::Up, State::Down);
    assert_eq!(State::Repeating, State::Repeating);
}
