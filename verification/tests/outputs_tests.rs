use layernotes::config::Layer;
use layernotes::outputs::{Outputs, SurfaceKind};

#[test]
fn fallback_is_replaced_by_first_monitor() {
    let mut outputs = Outputs::new(Layer::Bottom, 1);
    assert_eq!(outputs.primary_name(), Some("Fallback"));
    assert_eq!(outputs.missing_top_surfaces(), vec![0]);
    outputs.set_top_surface(0, 2);
    assert_eq!(outputs.entry_for_surface(2).map(|(e, k)| (e.name.clone(), k)), Some(("Fallback".to_owned(), SurfaceKind::Top)));

    assert!(!outputs.refresh_output("DP-1".to_owned(), 10, Some((1920, 1080))));
    let old = outputs.insert_output("DP-1".to_owned(), 10, Some((1920, 1080)), 3, 4);
    assert_eq!(old.map(|e| (e.surface_id, e.top_surface)), Some((1, Some(2))));
    assert_eq!(outputs.entries.len(), 1);
    assert_eq!(outputs.primary_name(), Some("DP-1"));
    assert!(outputs.has_name("DP-1"));
    assert!(!outputs.has_name("Fallback"));

    let none = outputs.insert_output("HDMI-A-1".to_owned(), 11, None, 5, 6);
    assert!(none.is_none());
    assert_eq!(outputs.find_output(11), Some(1));
    assert_eq!(outputs.entry_for_surface(5).map(|(e, k)| (e.name.clone(), k)), Some(("HDMI-A-1".to_owned(), SurfaceKind::Bottom)));
    assert_eq!(outputs.get(6).map(|e| e.name.clone()), Some("HDMI-A-1".to_owned()));
    assert!(outputs.get(99).is_none());
    assert!(outputs.refresh_output("HDMI-A-2".to_owned(), 11, Some((2560, 1440))));
    assert_eq!(outputs.entries[1].name, "HDMI-A-2");
    outputs.set_logical_size(10, Some((100, 100)));
    assert_eq!(outputs.entries[0].logical_size, Some((100, 100)));
}

#[test]
fn removing_the_last_monitor_brings_back_the_fallback() {
    let mut outputs = Outputs::new(Layer::Bottom, 1);
    outputs.insert_output("DP-1".to_owned(), 10, None, 3, 4);
    outputs.insert_output("DP-2".to_owned(), 12, None, 5, 6);
    assert!(!outputs.is_last_output(10));
    let gone = outputs.remove(10, None);
    assert_eq!(gone.map(|e| e.name), Some("DP-1".to_owned()));
    assert!(outputs.remove(10, None).is_none());
    assert!(outputs.is_last_output(12));
    let gone = outputs.remove(12, Some((7, 8)));
    assert_eq!(gone.map(|e| e.surface_id), Some(5));
    assert_eq!(outputs.entries.len(), 1);
    assert_eq!(outputs.primary_name(), Some("Fallback"));
    assert_eq!(outputs.entries[0].surface_id, 7);
    assert_eq!(outputs.entries[0].top_surface, Some(8));
}

#[test]
fn layer_changes_in_place_and_by_recreation() {
    let mut outputs = Outputs::new(Layer::Bottom, 1);
    outputs.insert_output("DP-1".to_owned(), 10, None, 3, 4);
    outputs.insert_output("DP-2".to_owned(), 12, None, 5, 6);
    let plan = outputs.apply_layer(Layer::Top);
    assert_eq!(plan, vec![(3, Layer::Top), (4, Layer::Overlay), (5, Layer::Top), (6, Layer::Overlay)]);
    assert_eq!(outputs.layer, Layer::Top);
    let old = outputs.recreate_all(Layer::Background, &vec![(20, 21), (22, 23)]);
    assert_eq!(old, vec![3, 4, 5, 6]);
    assert_eq!(outputs.layer, Layer::Background);
    assert_eq!(outputs.entries[1].surface_id, 22);
    assert_eq!(outputs.entries[1].top_surface, Some(23));
    assert_eq!(outputs.entries[1].name, "DP-2");
}
