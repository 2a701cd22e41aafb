use rstrf::async_cache::AsyncCache;
use rstrf::predictions::{prediction_color, prediction_status, Classification, PredictionStatus, Rgb};

#[test]
fn hidden_predictions_have_no_status() {
    let cache: AsyncCache<u32, u32, ()> = AsyncCache::new();
    assert_eq!(prediction_status(false, false, false, &cache), None);
}

#[test]
fn status_reports_the_first_missing_input() {
    let mut cache: AsyncCache<u32, u32, ()> = AsyncCache::new();
    assert_eq!(prediction_status(true, false, true, &cache), Some(PredictionStatus::NoSatellites));
    assert_eq!(prediction_status(true, true, false, &cache), Some(PredictionStatus::NoSite));
    assert_eq!(prediction_status(true, true, true, &cache), Some(PredictionStatus::NoPasses));
    cache.start(1, (), |_| {});
    assert!(cache.busy());
    assert_eq!(prediction_status(true, true, false, &cache), Some(PredictionStatus::Predicting));
    cache.store(1, 10);
    assert!(!cache.busy());
    assert_eq!(prediction_status(true, true, true, &cache), None);
}

#[test]
fn status_messages() {
    assert_eq!(PredictionStatus::NoSatellites.message(), "No satellites");
    assert_eq!(PredictionStatus::Predicting.message(), "Predicting satellite passes...");
    assert_eq!(PredictionStatus::NoSite.message(), "No site configured");
    assert_eq!(PredictionStatus::NoPasses.message(), "No passes predicted");
}

const RED: Rgb = Rgb(255, 0, 0);
const GREEN: Rgb = Rgb(0, 255, 0);
const ORANGE: Rgb = Rgb(255, 165, 0);

#[test]
fn chart_prediction_color_maps_classification_to_expected_rgb() {
    assert_eq!(prediction_color(None), GREEN);
    assert_eq!(prediction_color(Some(Classification::Unclassified)), GREEN);
    assert_eq!(prediction_color(Some(Classification::Classified)), ORANGE);
    assert_eq!(prediction_color(Some(Classification::Secret)), RED);
}

#[test]
fn overlay_prediction_color_maps_classification_to_expected_rgb() {
    assert_eq!(prediction_color(None), GREEN);
    assert_eq!(prediction_color(Some(Classification::Unclassified)), GREEN);
    assert_eq!(prediction_color(Some(Classification::Classified)), ORANGE);
    assert_eq!(prediction_color(Some(Classification::Secret)), RED);
}
