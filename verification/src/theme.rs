//! Appearance choices: the application theme and the spectrogram colormap.
use vstd::prelude::*;

verus! {

/// The built-in application themes.
#[derive(Debug, Clone, Copy, PartialEq, Eq, Hash, Structural)]
pub enum BuiltinTheme {
    Light,
    Dark,
    Dracula,
    Nord,
    SolarizedLight,
    SolarizedDark,
    GruvboxLight,
    GruvboxDark,
    CatppuccinLatte,
    CatppuccinFrappe,
    CatppuccinMacchiato,
    CatppuccinMocha,
    TokyoNight,
    TokyoNightStorm,
    TokyoNightLight,
    KanagawaWave,
    KanagawaDragon,
    KanagawaLotus,
    Moonfly,
    Nightfly,
    Oxocarbon,
    Ferra,
}

impl Default for BuiltinTheme {
    /// The dark theme.
    fn default() -> (r: Self)
        ensures
            r == BuiltinTheme::Dark,
    {
        BuiltinTheme::Dark
    }
}

/// The themes in declaration order, as the preferences picker lists them.
pub open spec fn all_themes() -> Seq<BuiltinTheme> {
    seq![
        BuiltinTheme::Light,
        BuiltinTheme::Dark,
        BuiltinTheme::Dracula,
        BuiltinTheme::Nord,
        BuiltinTheme::SolarizedLight,
        BuiltinTheme::SolarizedDark,
        BuiltinTheme::GruvboxLight,
        BuiltinTheme::GruvboxDark,
        BuiltinTheme::CatppuccinLatte,
        BuiltinTheme::CatppuccinFrappe,
        BuiltinTheme::CatppuccinMacchiato,
        BuiltinTheme::CatppuccinMocha,
        BuiltinTheme::TokyoNight,
        BuiltinTheme::TokyoNightStorm,
        BuiltinTheme::TokyoNightLight,
        BuiltinTheme::KanagawaWave,
        BuiltinTheme::KanagawaDragon,
        BuiltinTheme::KanagawaLotus,
        BuiltinTheme::Moonfly,
        BuiltinTheme::Nightfly,
        BuiltinTheme::Oxocarbon,
        BuiltinTheme::Ferra,
    ]
}

impl BuiltinTheme {
    /// Every theme, in declaration order.
    pub fn variants() -> (r: Vec<Self>)
        ensures
            r@ == all_themes(),
    {
        let r = vec![
            BuiltinTheme::Light,
            BuiltinTheme::Dark,
            BuiltinTheme::Dracula,
            BuiltinTheme::Nord,
            BuiltinTheme::SolarizedLight,
            BuiltinTheme::SolarizedDark,
            BuiltinTheme::GruvboxLight,
            BuiltinTheme::GruvboxDark,
            BuiltinTheme::CatppuccinLatte,
            BuiltinTheme::CatppuccinFrappe,
            BuiltinTheme::CatppuccinMacchiato,
            BuiltinTheme::CatppuccinMocha,
            BuiltinTheme::TokyoNight,
            BuiltinTheme::TokyoNightStorm,
            BuiltinTheme::TokyoNightLight,
            BuiltinTheme::KanagawaWave,
            BuiltinTheme::KanagawaDragon,
            BuiltinTheme::KanagawaLotus,
            BuiltinTheme::Moonfly,
            BuiltinTheme::Nightfly,
            BuiltinTheme::Oxocarbon,
            BuiltinTheme::Ferra,
        ];
        assert(r@ =~= all_themes());
        r
    }

    /// The theme's name as shown to the user: the variant's name.
    pub fn name(&self) -> (r: &'static str)
        ensures
            r@ == match *self {
                BuiltinTheme::Light => "Light"@,
                BuiltinTheme::Dark => "Dark"@,
                BuiltinTheme::Dracula => "Dracula"@,
                BuiltinTheme::Nord => "Nord"@,
                BuiltinTheme::SolarizedLight => "SolarizedLight"@,
                BuiltinTheme::SolarizedDark => "SolarizedDark"@,
                BuiltinTheme::GruvboxLight => "GruvboxLight"@,
                BuiltinTheme::GruvboxDark => "GruvboxDark"@,
                BuiltinTheme::CatppuccinLatte => "CatppuccinLatte"@,
                BuiltinTheme::CatppuccinFrappe => "CatppuccinFrappe"@,
                BuiltinTheme::CatppuccinMacchiato => "CatppuccinMacchiato"@,
                BuiltinTheme::CatppuccinMocha => "CatppuccinMocha"@,
                BuiltinTheme::TokyoNight => "TokyoNight"@,
                BuiltinTheme::TokyoNightStorm => "TokyoNightStorm"@,
                BuiltinTheme::TokyoNightLight => "TokyoNightLight"@,
                BuiltinTheme::KanagawaWave => "KanagawaWave"@,
                BuiltinTheme::KanagawaDragon => "KanagawaDragon"@,
                BuiltinTheme::KanagawaLotus => "KanagawaLotus"@,
                BuiltinTheme::Moonfly => "Moonfly"@,
                BuiltinTheme::Nightfly => "Nightfly"@,
                BuiltinTheme::Oxocarbon => "Oxocarbon"@,
                BuiltinTheme::Ferra => "Ferra"@,
            },
    {
        match self {
            BuiltinTheme::Light => "Light",
            BuiltinTheme::Dark => "Dark",
            BuiltinTheme::Dracula => "Dracula",
            BuiltinTheme::Nord => "Nord",
            BuiltinTheme::SolarizedLight => "SolarizedLight",
            BuiltinTheme::SolarizedDark => "SolarizedDark",
            BuiltinTheme::GruvboxLight => "GruvboxLight",
            BuiltinTheme::GruvboxDark => "GruvboxDark",
            BuiltinTheme::CatppuccinLatte => "CatppuccinLatte",
            BuiltinTheme::CatppuccinFrappe => "CatppuccinFrappe",
            BuiltinTheme::CatppuccinMacchiato => "CatppuccinMacchiato",
            BuiltinTheme::CatppuccinMocha => "CatppuccinMocha",
            BuiltinTheme::TokyoNight => "TokyoNight",
            BuiltinTheme::TokyoNightStorm => "TokyoNightStorm",
            BuiltinTheme::TokyoNightLight => "TokyoNightLight",
            BuiltinTheme::KanagawaWave => "KanagawaWave",
            BuiltinTheme::KanagawaDragon => "KanagawaDragon",
            BuiltinTheme::KanagawaLotus => "KanagawaLotus",
            BuiltinTheme::Moonfly => "Moonfly",
            BuiltinTheme::Nightfly => "Nightfly",
            BuiltinTheme::Oxocarbon => "Oxocarbon",
            BuiltinTheme::Ferra => "Ferra",
        }
    }
}

/// The colormaps the spectrogram can be drawn with.
#[derive(Debug, Clone, Copy, PartialEq, Eq, Hash, Structural)]
pub enum Colormap {
    Magma,
    Inferno,
    Plasma,
    Viridis,
    Cividis,
    Rocket,
    Mako,
    Turbo,
}

impl Default for Colormap {
    /// Magma.
    fn default() -> (r: Self)
        ensures
            r == Colormap::Magma,
    {
        Colormap::Magma
    }
}

impl Colormap {
    /// Every colormap, in declaration order, as the toolbar lists them.
    pub fn all() -> (r: Vec<Self>)
        ensures
            r@ == seq![
                Colormap::Magma,
                Colormap::Inferno,
                Colormap::Plasma,
                Colormap::Viridis,
                Colormap::Cividis,
                Colormap::Rocket,
                Colormap::Mako,
                Colormap::Turbo,
            ],
    {
        vec![
            Colormap::Magma,
            Colormap::Inferno,
            Colormap::Plasma,
            Colormap::Viridis,
            Colormap::Cividis,
            Colormap::Rocket,
            Colormap::Mako,
            Colormap::Turbo,
        ]
    }

    /// The colormap's name: the variant's name.
    pub fn name(&self) -> (r: &'static str)
        ensures
            r@ == match *self {
                Colormap::Magma => "Magma"@,
                Colormap::Inferno => "Inferno"@,
                Colormap::Plasma => "Plasma"@,
                Colormap::Viridis => "Viridis"@,
                Colormap::Cividis => "Cividis"@,
                Colormap::Rocket => "Rocket"@,
                Colormap::Mako => "Mako"@,
                Colormap::Turbo => "Turbo"@,
            },
    {
        match self {
            Colormap::Magma => "Magma",
            Colormap::Inferno => "Inferno",
            Colormap::Plasma => "Plasma",
            Colormap::Viridis => "Viridis",
            Colormap::Cividis => "Cividis",
            Colormap::Rocket => "Rocket",
            Colormap::Mako => "Mako",
            Colormap::Turbo => "Turbo",
        }
    }
}

} // verus!
