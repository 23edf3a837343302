//! User settings: sound volumes and the selected mode, with the fixed-point
//! volume arithmetic the audio layer applies.

use vstd::prelude::*;
use vstd::arithmetic::div_mod::{lemma_div_is_ordered, lemma_div_multiples_vanish,
    lemma_div_pos_is_pos};

verus! {

/// The configurable user settings.
pub struct Config {
    /// Music volume, `0..=100`.
    pub bgm_volume: i32,
    /// Effect volume, `0..=100`.
    pub se_volume: i32,
    /// Name of the selected mode.
    pub game_ron_name: String,
    /// Where the selected mode's definition file lives.
    pub game_ron_asset_path: String,
}

/// A playback volume in milli units: the source's scale times the user
/// volume over one hundred.
pub open spec fn spec_volume(v: int, scale_milli: int) -> int {
    scale_milli * v / 100
}

/// One volume setting applied to a source scale (milli units).
fn volume_milli(v: i32, scale_milli: i64) -> (r: i64)
    requires
        0 <= v <= 100,
        0 <= scale_milli <= 1_000_000_000,
    ensures
        r == spec_volume(v as int, scale_milli as int),
        0 <= r <= scale_milli,
{
    proof {
        assert(scale_milli * v <= scale_milli * 100) by (nonlinear_arith)
            requires 0 <= v <= 100, 0 <= scale_milli;
        assert(0 <= scale_milli * v) by (nonlinear_arith)
            requires 0 <= v, 0 <= scale_milli;
        lemma_div_pos_is_pos(scale_milli as int * v as int, 100);
        lemma_div_is_ordered(scale_milli as int * v as int, scale_milli as int * 100, 100);
        lemma_div_multiples_vanish(scale_milli as int, 100);
        assert(scale_milli as int * 100 == 100 * scale_milli as int) by (nonlinear_arith);
    }
    ((scale_milli as u64) * (v as u64) / 100) as i64
}

impl Config {
    /// A configuration from its parts.
    pub fn new(
        bgm_volume: i32,
        se_volume: i32,
        game_ron_name: String,
        game_ron_asset_path: String,
    ) -> (r: Config)
        ensures
            r.bgm_volume == bgm_volume,
            r.se_volume == se_volume,
            r.game_ron_name@ == game_ron_name@,
            r.game_ron_asset_path@ == game_ron_asset_path@,
    {
        Config { bgm_volume, se_volume, game_ron_name, game_ron_asset_path }
    }

    /// The music volume applied to a source scale (milli units).
    pub fn get_bgm_volume(&self, scale_milli: i64) -> (r: i64)
        requires
            0 <= self.bgm_volume <= 100,
            0 <= scale_milli <= 1_000_000_000,
        ensures
            r == spec_volume(self.bgm_volume as int, scale_milli as int),
            0 <= r <= scale_milli,
    {
        volume_milli(self.bgm_volume, scale_milli)
    }

    /// The effect volume applied to a source scale (milli units).
    pub fn get_se_volume(&self, scale_milli: i64) -> (r: i64)
        requires
            0 <= self.se_volume <= 100,
            0 <= scale_milli <= 1_000_000_000,
        ensures
            r == spec_volume(self.se_volume as int, scale_milli as int),
            0 <= r <= scale_milli,
    {
        volume_milli(self.se_volume, scale_milli)
    }
}

/// The set of assets compiled into the binary — the default mode's
/// definition, its images and sounds.  The engine-side registration of
/// these files lives outside the core; the core only names the set and the
/// default definition below.
pub struct ScEmbeddedAssetsPlugin;

/// The mode selected when nothing is persisted yet, and where its
/// definition file lives.
pub fn get_default_game_ron_name_and_asset_path() -> (r: (&'static str, &'static str))
    ensures
        r.0@ == "(default)"@,
{
    ("(default)", "embedded://suika_core/embedded_assets/ron/kao.game.ron")
}

} // verus!
