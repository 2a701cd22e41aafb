//! What the plot says about its satellite pass predictions when it has none to draw, and the
//! colors it draws them in.
use vstd::prelude::*;
use crate::async_cache::AsyncCache;

verus! {

/// Why no predictions are drawn.
#[derive(Debug, Clone, Copy, PartialEq, Eq, Structural)]
pub enum PredictionStatus {
    NoSatellites,
    Predicting,
    NoSite,
    NoPasses,
}

impl PredictionStatus {
    /// The message shown for the status.
    pub fn message(&self) -> (r: &'static str)
        ensures
            r@ == match *self {
                PredictionStatus::NoSatellites => "No satellites"@,
                PredictionStatus::Predicting => "Predicting satellite passes..."@,
                PredictionStatus::NoSite => "No site configured"@,
                PredictionStatus::NoPasses => "No passes predicted"@,
            },
    {
        match self {
            PredictionStatus::NoSatellites => "No satellites",
            PredictionStatus::Predicting => "Predicting satellite passes...",
            PredictionStatus::NoSite => "No site configured",
            PredictionStatus::NoPasses => "No passes predicted",
        }
    }
}

/// The status while predictions are shown: the first of no satellites, a computation in flight,
/// no site and no stored result that holds; none when predictions are hidden or there are some.
pub open spec fn status_spec(
    show_predictions: bool,
    has_satellites: bool,
    busy: bool,
    has_site: bool,
    has_stored: bool,
) -> Option<PredictionStatus> {
    if !show_predictions {
        None
    } else if !has_satellites {
        Some(PredictionStatus::NoSatellites)
    } else if busy {
        Some(PredictionStatus::Predicting)
    } else if !has_site {
        Some(PredictionStatus::NoSite)
    } else if !has_stored {
        Some(PredictionStatus::NoPasses)
    } else {
        None
    }
}

/// The prediction status of a plot whose predictions are cached in `cache`.
pub fn prediction_status<K, V, H>(
    show_predictions: bool,
    has_satellites: bool,
    has_site: bool,
    cache: &AsyncCache<K, V, H>,
) -> (r: Option<PredictionStatus>)
    ensures
        r == status_spec(
            show_predictions,
            has_satellites,
            cache.model().computing is Some,
            has_site,
            cache.model().stored is Some,
        ),
{
    if !show_predictions {
        return None;
    }
    if !has_satellites {
        Some(PredictionStatus::NoSatellites)
    } else if cache.busy() {
        Some(PredictionStatus::Predicting)
    } else if !has_site {
        Some(PredictionStatus::NoSite)
    } else if cache.get_stored().is_none() {
        Some(PredictionStatus::NoPasses)
    } else {
        None
    }
}

/// The security classification of a satellite's element set, as a TLE states it.
#[derive(Debug, Clone, Copy, PartialEq, Eq, Structural)]
pub enum Classification {
    Unclassified,
    Classified,
    Secret,
}

/// An RGB color.
#[derive(Debug, Clone, Copy, PartialEq, Eq, Structural)]
pub struct Rgb(pub u8, pub u8, pub u8);

/// The color a satellite's predicted passes are drawn in: red for secret, orange for classified,
/// green for unclassified or unknown.
pub fn prediction_color(classification: Option<Classification>) -> (r: Rgb)
    ensures
        r == match classification {
            Some(Classification::Secret) => Rgb(255, 0, 0),
            Some(Classification::Classified) => Rgb(255, 165, 0),
            _ => Rgb(0, 255, 0),
        },
{
    match classification {
        Some(Classification::Secret) => Rgb(255, 0, 0),
        Some(Classification::Classified) => Rgb(255, 165, 0),
        Some(Classification::Unclassified) | None => Rgb(0, 255, 0),
    }
}

} // verus!
