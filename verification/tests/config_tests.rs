use layernotes::config::{
    main_surface_region, output_matches, raised_layer, toggled_layer, InputRegion, Layer, Outputs,
    OutputsMode, ThemeConfig,
};

#[test]
fn raised_layer_is_never_below_the_configured_layer() {
    assert_eq!(raised_layer(Layer::Background), Layer::Bottom);
    assert_eq!(raised_layer(Layer::Bottom), Layer::Top);
    assert_eq!(raised_layer(Layer::Top), Layer::Overlay);
    assert_eq!(raised_layer(Layer::Overlay), Layer::Overlay);
}

#[test]
fn output_matching_by_mode_and_name() {
    assert!(output_matches(&Outputs::Mode(OutputsMode::All), "DP-1"));
    assert!(output_matches(&Outputs::Mode(OutputsMode::Active), "HDMI-A-1"));
    let targets = Outputs::Targets(vec!["DP-1".to_owned(), "HDMI".to_owned()]);
    assert!(output_matches(&targets, "DP-1"));
    assert!(output_matches(&targets, "HDMI-A-1"));
    assert!(!output_matches(&targets, "eDP-2"));
    assert!(!output_matches(&Outputs::Targets(Vec::new()), "DP-1"));
    assert!(output_matches(&Outputs::Targets(vec![String::new()]), "anything"));
}

#[test]
fn layer_toggle_and_regions() {
    assert_eq!(toggled_layer(Layer::Top), Layer::Bottom);
    assert_eq!(toggled_layer(Layer::Bottom), Layer::Top);
    assert_eq!(toggled_layer(Layer::Overlay), Layer::Top);
    assert_eq!(toggled_layer(toggled_layer(Layer::Bottom)), Layer::Bottom);
    assert_eq!(main_surface_region(Layer::Bottom), InputRegion::Whole);
    assert_eq!(main_surface_region(Layer::Background), InputRegion::Nothing);
    assert_eq!(main_surface_region(Layer::Top), InputRegion::NotesOnly);
    assert_eq!(main_surface_region(Layer::Overlay), InputRegion::NotesOnly);
}

#[test]
fn config_defaults() {
    assert_eq!(Layer::default(), Layer::Bottom);
    assert_eq!(Outputs::default(), Outputs::Mode(OutputsMode::All));
    let theme = ThemeConfig::default();
    assert_eq!(theme.text, "#cdd6f4");
    assert_eq!(theme.button_bg, "#313244");
}
