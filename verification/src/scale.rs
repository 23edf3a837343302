//! Uniform scaling of a game definition, as the command-line scale tool
//! applies it: ball records and bottle interior scale by a fixed-point
//! factor; everything else is left exactly as it was.

use vstd::prelude::*;
use crate::definition::{GameDefinition, RADIUS_LIMIT};

verus! {

/// Largest accepted scale factor, in thousandths (a factor of one thousand).
pub const SCALE_LIMIT_MILLI: i64 = 1_000_000;

/// `x` scaled by `scale` thousandths, floored.
pub open spec fn spec_scaled(x: int, scale: int) -> int {
    x * scale / 1000
}

/// One value scaled by `scale` thousandths.
fn scaled_milli(x: i64, scale: i64) -> (r: i64)
    requires
        0 <= x <= RADIUS_LIMIT,
        0 <= scale <= SCALE_LIMIT_MILLI,
    ensures
        r == spec_scaled(x as int, scale as int),
        r >= 0,
{
    proof {
        assert(x * scale <= 1_000_000_000int * 1_000_000int) by (nonlinear_arith)
            requires 0 <= x <= 1_000_000_000int, 0 <= scale <= 1_000_000int;
        assert(0 <= x * scale) by (nonlinear_arith)
            requires 0 <= x, 0 <= scale;
        vstd::arithmetic::div_mod::lemma_div_pos_is_pos(x as int * scale as int, 1000);
    }
    (((x as u64) * (scale as u64)) / 1000) as i64
}

/// Scales the selected parts of a definition by `scale` thousandths: with
/// `balls`, every level's collider radius and view rectangle; with
/// `bottle`, the bottle's interior width, height and wall thickness.  Every
/// other field — image paths, effect indices, the bottle offset, player,
/// area and physics tunables — is untouched.
pub fn scale_definition(def: &mut GameDefinition, scale: i64, balls: bool, bottle: bool)
    requires
        old(def).wf(),
        0 <= scale <= SCALE_LIMIT_MILLI,
    ensures
        final(def).balls@.len() == old(def).balls@.len(),
        forall|i: int| 0 <= i < old(def).balls@.len() ==> {
            let ob = old(def).balls@[i];
            let nb = #[trigger] final(def).balls@[i];
            if balls {
                &&& nb.physics_radius == spec_scaled(ob.physics_radius as int, scale as int)
                &&& nb.view_width == spec_scaled(ob.view_width as int, scale as int)
                &&& nb.view_height == spec_scaled(ob.view_height as int, scale as int)
                &&& nb.image_asset_path@ == ob.image_asset_path@
                &&& nb.effect_index == ob.effect_index
            } else {
                nb == ob
            }
        },
        final(def).bottle.inner_width == if bottle {
            spec_scaled(old(def).bottle.inner_width as int, scale as int)
        } else {
            old(def).bottle.inner_width as int
        },
        final(def).bottle.inner_height == if bottle {
            spec_scaled(old(def).bottle.inner_height as int, scale as int)
        } else {
            old(def).bottle.inner_height as int
        },
        final(def).bottle.thickness == if bottle {
            spec_scaled(old(def).bottle.thickness as int, scale as int)
        } else {
            old(def).bottle.thickness as int
        },
        final(def).bottle.offset_x == old(def).bottle.offset_x,
        final(def).bottle.offset_y == old(def).bottle.offset_y,
        final(def).drop_ball_level_max == old(def).drop_ball_level_max,
        final(def).player_speed == old(def).player_speed,
        final(def).grow_time_ms == old(def).grow_time_ms,
        final(def).area == old(def).area,
        final(def).max_velocity == old(def).max_velocity,
        final(def).shake_k == old(def).shake_k,
{
    if balls {
        let n = def.balls.len();
        let mut i: usize = 0;
        while i < n
            invariant
                0 <= scale <= SCALE_LIMIT_MILLI,
                n == def.balls@.len(),
                n == old(def).balls@.len(),
                i <= n,
                forall|k: int| 0 <= k < old(def).balls@.len() ==> {
                    &&& 1 <= (#[trigger] old(def).balls@[k]).physics_radius <= RADIUS_LIMIT
                    &&& 0 <= old(def).balls@[k].view_width <= RADIUS_LIMIT
                    &&& 0 <= old(def).balls@[k].view_height <= RADIUS_LIMIT
                },
                forall|k: int| 0 <= k < i ==> {
                    let ob = old(def).balls@[k];
                    let nb = #[trigger] def.balls@[k];
                    &&& nb.physics_radius == spec_scaled(ob.physics_radius as int, scale as int)
                    &&& nb.view_width == spec_scaled(ob.view_width as int, scale as int)
                    &&& nb.view_height == spec_scaled(ob.view_height as int, scale as int)
                    &&& nb.image_asset_path@ == ob.image_asset_path@
                    &&& nb.effect_index == ob.effect_index
                },
                forall|k: int| i <= k < n ==> #[trigger] def.balls@[k] == old(def).balls@[k],
                def.bottle == old(def).bottle,
                def.drop_ball_level_max == old(def).drop_ball_level_max,
                def.player_speed == old(def).player_speed,
                def.grow_time_ms == old(def).grow_time_ms,
                def.area == old(def).area,
                def.max_velocity == old(def).max_velocity,
                def.shake_k == old(def).shake_k,
            decreases n - i,
        {
            let pr = scaled_milli(def.balls[i].physics_radius, scale);
            let vw = scaled_milli(def.balls[i].view_width, scale);
            let vh = scaled_milli(def.balls[i].view_height, scale);
            def.balls[i].physics_radius = pr;
            def.balls[i].view_width = vw;
            def.balls[i].view_height = vh;
            i = i + 1;
        }
    }
    if bottle {
        let iw = scaled_milli(def.bottle.inner_width, scale);
        let ih = scaled_milli(def.bottle.inner_height, scale);
        let th = scaled_milli(def.bottle.thickness, scale);
        def.bottle.inner_width = iw;
        def.bottle.inner_height = ih;
        def.bottle.thickness = th;
    }
}

} // verus!
