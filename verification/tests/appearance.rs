use rstrf::layout::{AppEvent, Dummy, MarkAction, PaneEffect, PaneOut, RectAction, SplitAxis, WindowEffect, WindowOut};
use rstrf::theme::{BuiltinTheme, Colormap};

#[test]
fn defaults() {
    assert_eq!(BuiltinTheme::default(), BuiltinTheme::Dark);
    assert_eq!(Colormap::default(), Colormap::Magma);
}

#[test]
fn theme_names_and_order() {
    let themes = BuiltinTheme::variants();
    assert_eq!(themes.len(), 22);
    assert_eq!(themes[0], BuiltinTheme::Light);
    assert_eq!(themes[21], BuiltinTheme::Ferra);
    assert_eq!(BuiltinTheme::CatppuccinMacchiato.name(), "CatppuccinMacchiato");
    assert_eq!(BuiltinTheme::default().name(), "Dark");
}

#[test]
fn colormap_names_and_order() {
    let names: Vec<&str> = Colormap::all().iter().map(|c| c.name()).collect();
    assert_eq!(names, vec!["Magma", "Inferno", "Plasma", "Viridis", "Cividis", "Rocket", "Mako", "Turbo"]);
}

#[test]
fn layout_types() {
    assert_eq!(Dummy.title(), "Loading...");
    let out: PaneOut<u8, &str> = PaneOut::Effect(PaneEffect::ToWorkspace("ws"));
    assert_eq!(out, PaneOut::Effect(PaneEffect::ToWorkspace("ws")));
    let w: WindowOut<u8, &str> = WindowOut::Effect(WindowEffect::ToApp("app"));
    assert_ne!(w, WindowOut::Msg(1));
    assert_ne!(AppEvent::ConfigUpdated, AppEvent::SatellitesChanged);
    assert_ne!(SplitAxis::Horizontal, SplitAxis::Vertical);
    assert_ne!(RectAction::Zoom, RectAction::Delete);
    assert_ne!(MarkAction::Trackpoint, MarkAction::Signal);
}
