use wallpaper_rs::output::{output_dimensions, output_name, resolve, OutputInfo, OutputMode};

fn info(handle: Option<u8>, name: Option<&str>, width: u32, height: u32, configured: bool) -> OutputInfo<u8> {
    OutputInfo { handle, name: name.map(String::from), width, height, configured }
}

#[test]
fn size_needs_configuration_and_a_mode() {
    assert_eq!(info(Some(1), None, 1920, 1080, true).size(), Some((1920, 1080)));
    assert_eq!(info(Some(1), None, 1920, 1080, false).size(), None);
    assert_eq!(info(Some(1), None, 0, 1080, true).size(), None);
    assert_eq!(info(Some(1), None, 1920, 0, true).size(), None);
    let d: OutputInfo<u8> = OutputInfo::default();
    assert!(d.handle.is_none() && d.name.is_none() && d.size().is_none());
}

#[test]
fn resolve_keeps_usable_outputs_in_order() {
    let outputs = vec![
        (7, info(Some(1), Some("DP-1"), 2560, 1440, true)),
        (8, info(None, Some("unbound"), 800, 600, true)),
        (9, info(Some(2), Some("pending"), 800, 600, false)),
        (42, info(Some(3), None, 1024, 768, true)),
    ];
    let resolved = resolve(&outputs);
    assert_eq!(resolved.len(), 2);
    assert_eq!((resolved[0].name.as_str(), resolved[0].handle, resolved[0].width, resolved[0].height), ("DP-1", 1, 2560, 1440));
    assert_eq!((resolved[1].name.as_str(), resolved[1].handle, resolved[1].width, resolved[1].height), ("output-42", 3, 1024, 768));
}

#[test]
fn surface_size_prefers_logical_size() {
    let modes = [
        OutputMode { dimensions: (640, 480), current: false },
        OutputMode { dimensions: (1280, 720), current: true },
        OutputMode { dimensions: (800, 600), current: true },
    ];
    assert_eq!(output_dimensions(Some((1920, 1080)), &modes), Some((1920, 1080)));
    assert_eq!(output_dimensions(Some((0, 1080)), &modes), Some((1280, 720)));
    assert_eq!(output_dimensions(None, &modes), Some((1280, 720)));
    assert_eq!(output_dimensions(None, &modes[..1]), None);
    assert_eq!(output_dimensions(None, &[OutputMode { dimensions: (-1, 2), current: true }]), Some((u32::MAX, 2)));
}

#[test]
fn output_name_falls_back_to_the_id() {
    assert_eq!(output_name(&Some("HDMI-A-1".to_string()), 3), "HDMI-A-1");
    assert_eq!(output_name(&None, 0), "output-0");
    assert_eq!(output_name(&None, 4_294_967_295), "output-4294967295");
}

#[test]
fn fallback_names_spell_the_id_in_decimal() {
    assert_eq!(output_name(&None, 0), "output-0");
    assert_eq!(output_name(&None, 7), "output-7");
    assert_eq!(output_name(&None, 1200), "output-1200");
    assert_eq!(output_name(&None, u32::MAX), "output-4294967295");
    assert_eq!(output_name(&Some("HDMI-A-1".to_string()), 3), "HDMI-A-1");
}
