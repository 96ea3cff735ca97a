use raytracer::camera::RenderSettings;

#[test]
fn shallow_preset() {
    let settings = RenderSettings::shallow();
    assert_eq!(settings, RenderSettings { samples_per_pixel: 10, max_depth: 10 });
}

#[test]
fn deep_preset() {
    let settings = RenderSettings::deep();
    assert_eq!(settings.samples_per_pixel, 100);
    assert_eq!(settings.max_depth, 50);
}
