use vstd::prelude::*;
use crate::metrics::MetricKind;

verus! {

/// How the tray icon is drawn.
#[derive(Clone, Debug)]
pub struct IconConfig {
    /// The icon's edge in pixels; rendering clamps it to `16..=64`.
    pub size: u32,
    pub low_color: String,
    pub medium_color: String,
    pub high_color: String,
    /// The `#RRGGBB` colour of the cell backgrounds and borders.
    pub track_color: String,
}

/// The settings the monitor runs with. The load thresholds of the settings file
/// are not read by any rule here and stay with the file.
#[derive(Clone, Debug)]
pub struct AppConfig {
    pub app_name: String,
    pub update_interval_ms: u64,
    pub enabled_metrics: Vec<MetricKind>,
    pub icon: IconConfig,
}

/// The shortest pause between two rounds of sampling, in milliseconds.
pub const MIN_UPDATE_INTERVAL_MS: u64 = 250;

impl IconConfig {
    /// The icon settings written to a fresh settings file.
    pub open spec fn is_default(&self) -> bool {
        &&& self.size == 32
        &&& self.low_color@ == "#48c774"@
        &&& self.medium_color@ == "#ffdd57"@
        &&& self.high_color@ == "#f14668"@
        &&& self.track_color@ == "#2b2f36"@
    }
}

impl AppConfig {
    /// The settings written to a fresh settings file.
    pub open spec fn is_default(&self) -> bool {
        &&& self.app_name@ == "RustGauge"@
        &&& self.update_interval_ms == 1000
        &&& self.enabled_metrics@ == seq![MetricKind::Cpu, MetricKind::Memory]
        &&& self.icon.is_default()
    }
}

impl Default for IconConfig {
    fn default() -> (res: Self)
        ensures
            res.is_default(),
    {
        IconConfig {
            size: 32,
            low_color: "#48c774".to_owned(),
            medium_color: "#ffdd57".to_owned(),
            high_color: "#f14668".to_owned(),
            track_color: "#2b2f36".to_owned(),
        }
    }
}

impl Default for AppConfig {
    fn default() -> (res: Self)
        ensures
            res.is_default(),
    {
        let mut enabled_metrics: Vec<MetricKind> = Vec::new();
        enabled_metrics.push(MetricKind::Cpu);
        enabled_metrics.push(MetricKind::Memory);
        assert(enabled_metrics@ =~= seq![MetricKind::Cpu, MetricKind::Memory]);
        let icon = IconConfig::default();
        assert(icon.is_default());
        AppConfig { app_name: "RustGauge".to_owned(), update_interval_ms: 1000, enabled_metrics, icon }
    }
}

/// The pause after a round of sampling: the configured interval, but at least 250 ms.
pub fn sample_interval_ms(config: &AppConfig) -> (res: u64)
    ensures
        res == (if config.update_interval_ms > 250 {
            config.update_interval_ms
        } else {
            250
        }),
        res >= 250,
{
    if config.update_interval_ms > MIN_UPDATE_INTERVAL_MS {
        config.update_interval_ms
    } else {
        MIN_UPDATE_INTERVAL_MS
    }
}

/// `config` with the metrics chosen in the menu.
pub fn with_enabled_metrics(config: &AppConfig, enabled_metrics: Vec<MetricKind>) -> (res: AppConfig)
    ensures
        res.app_name@ == config.app_name@,
        res.update_interval_ms == config.update_interval_ms,
        res.enabled_metrics@ == enabled_metrics@,
        res.icon.size == config.icon.size,
        res.icon.low_color@ == config.icon.low_color@,
        res.icon.medium_color@ == config.icon.medium_color@,
        res.icon.high_color@ == config.icon.high_color@,
        res.icon.track_color@ == config.icon.track_color@,
{
    AppConfig {
        app_name: config.app_name.clone(),
        update_interval_ms: config.update_interval_ms,
        enabled_metrics,
        icon: IconConfig {
            size: config.icon.size,
            low_color: config.icon.low_color.clone(),
            medium_color: config.icon.medium_color.clone(),
            high_color: config.icon.high_color.clone(),
            track_color: config.icon.track_color.clone(),
        },
    }
}

} // verus!
