//! Built-in preset timing tables.
use vstd::prelude::*;
use crate::timing::DetailedTiming;

verus! {

/// A progressive timing without borders from its sizes, pixel clock,
/// polarities and refresh rate in millihertz.
pub open spec fn spec_preset(
    h_active: u32,
    v_active: u32,
    h_front: u32,
    h_sync: u32,
    h_back: u32,
    v_front: u32,
    v_sync: u32,
    v_back: u32,
    pixel_clock_khz: u32,
    h_pol: bool,
    v_pol: bool,
    v_rate_millihz: u64,
) -> DetailedTiming {
    DetailedTiming {
        h_active,
        v_active,
        h_front,
        h_sync,
        h_back,
        v_front,
        v_sync,
        v_back,
        h_border: 0,
        v_border: 0,
        pixel_clock_khz,
        h_pol,
        v_pol,
        v_rate_millihz,
    }
}

fn preset(
    h_active: u32,
    v_active: u32,
    h_front: u32,
    h_sync: u32,
    h_back: u32,
    v_front: u32,
    v_sync: u32,
    v_back: u32,
    pixel_clock_khz: u32,
    h_pol: bool,
    v_pol: bool,
    v_rate_millihz: u64,
) -> (t: DetailedTiming)
    ensures
        t == spec_preset(
            h_active,
            v_active,
            h_front,
            h_sync,
            h_back,
            v_front,
            v_sync,
            v_back,
            pixel_clock_khz,
            h_pol,
            v_pol,
            v_rate_millihz,
        ),
{
    DetailedTiming {
        h_active,
        v_active,
        h_front,
        h_sync,
        h_back,
        v_front,
        v_sync,
        v_back,
        h_border: 0,
        v_border: 0,
        pixel_clock_khz,
        h_pol,
        v_pol,
        v_rate_millihz,
    }
}

/// PC monitor presets (VESA and common modes).
pub open spec fn spec_pc_presets() -> Seq<DetailedTiming> {
    seq![
        spec_preset(1920, 1080, 88, 44, 148, 4, 5, 36, 148500, true, true, 60000),
        spec_preset(1920, 1080, 528, 44, 148, 4, 5, 36, 148500, true, true, 50000),
        spec_preset(1920, 1080, 638, 44, 148, 4, 5, 36, 148500, true, true, 48000),
        spec_preset(1920, 1080, 88, 44, 148, 4, 5, 36, 74250, true, true, 30000),
        spec_preset(1920, 1080, 528, 44, 148, 4, 5, 36, 74250, true, true, 25000),
        spec_preset(1920, 1080, 638, 44, 148, 4, 5, 36, 74250, true, true, 24000),
        spec_preset(1600, 900, 24, 80, 96, 1, 3, 96, 108000, true, true, 60000),
        spec_preset(1366, 768, 70, 143, 213, 3, 3, 24, 85500, true, true, 60000),
        spec_preset(1360, 768, 64, 112, 256, 3, 6, 18, 85500, true, true, 60000),
        spec_preset(1280, 720, 110, 40, 220, 5, 5, 20, 74250, true, true, 60000),
        spec_preset(1280, 720, 440, 40, 220, 5, 5, 20, 74250, true, true, 50000),
        spec_preset(1280, 720, 960, 40, 220, 5, 5, 20, 90000, true, true, 48000),
        spec_preset(1280, 720, 1760, 40, 220, 5, 5, 20, 74250, true, true, 30000),
        spec_preset(1280, 720, 2420, 40, 220, 5, 5, 20, 74250, true, true, 25000),
        spec_preset(1280, 720, 1760, 40, 220, 5, 5, 20, 59400, true, true, 24000),
        spec_preset(640, 480, 16, 96, 48, 10, 2, 33, 25200, false, false, 60000),
    ]
}

/// PC monitor presets (VESA and common modes).
pub fn pc_presets() -> (v: Vec<DetailedTiming>)
    ensures
        v@ == spec_pc_presets(),
{
    let mut v: Vec<DetailedTiming> = Vec::new();
    v.push(preset(1920, 1080, 88, 44, 148, 4, 5, 36, 148500, true, true, 60000));
    v.push(preset(1920, 1080, 528, 44, 148, 4, 5, 36, 148500, true, true, 50000));
    v.push(preset(1920, 1080, 638, 44, 148, 4, 5, 36, 148500, true, true, 48000));
    v.push(preset(1920, 1080, 88, 44, 148, 4, 5, 36, 74250, true, true, 30000));
    v.push(preset(1920, 1080, 528, 44, 148, 4, 5, 36, 74250, true, true, 25000));
    v.push(preset(1920, 1080, 638, 44, 148, 4, 5, 36, 74250, true, true, 24000));
    v.push(preset(1600, 900, 24, 80, 96, 1, 3, 96, 108000, true, true, 60000));
    v.push(preset(1366, 768, 70, 143, 213, 3, 3, 24, 85500, true, true, 60000));
    v.push(preset(1360, 768, 64, 112, 256, 3, 6, 18, 85500, true, true, 60000));
    v.push(preset(1280, 720, 110, 40, 220, 5, 5, 20, 74250, true, true, 60000));
    v.push(preset(1280, 720, 440, 40, 220, 5, 5, 20, 74250, true, true, 50000));
    v.push(preset(1280, 720, 960, 40, 220, 5, 5, 20, 90000, true, true, 48000));
    v.push(preset(1280, 720, 1760, 40, 220, 5, 5, 20, 74250, true, true, 30000));
    v.push(preset(1280, 720, 2420, 40, 220, 5, 5, 20, 74250, true, true, 25000));
    v.push(preset(1280, 720, 1760, 40, 220, 5, 5, 20, 59400, true, true, 24000));
    v.push(preset(640, 480, 16, 96, 48, 10, 2, 33, 25200, false, false, 60000));
    assert(v@ =~= spec_pc_presets());
    v
}

/// Common wide-screen monitor presets.
pub open spec fn spec_common_wide_presets() -> Seq<DetailedTiming> {
    seq![
        spec_preset(1280, 800, 48, 32, 80, 3, 6, 22, 71800, true, false, 60000),
        spec_preset(1920, 1200, 48, 32, 80, 3, 6, 26, 154130, true, false, 60000),
        spec_preset(2560, 1440, 48, 32, 80, 3, 5, 33, 241700, true, false, 60000),
        spec_preset(3440, 1440, 48, 32, 80, 3, 5, 33, 319900, true, false, 60000),
    ]
}

/// Common wide-screen monitor presets.
pub fn common_wide_presets() -> (v: Vec<DetailedTiming>)
    ensures
        v@ == spec_common_wide_presets(),
{
    let mut v: Vec<DetailedTiming> = Vec::new();
    v.push(preset(1280, 800, 48, 32, 80, 3, 6, 22, 71800, true, false, 60000));
    v.push(preset(1920, 1200, 48, 32, 80, 3, 6, 26, 154130, true, false, 60000));
    v.push(preset(2560, 1440, 48, 32, 80, 3, 5, 33, 241700, true, false, 60000));
    v.push(preset(3440, 1440, 48, 32, 80, 3, 5, 33, 319900, true, false, 60000));
    assert(v@ =~= spec_common_wide_presets());
    v
}

/// CEA/HDTV presets; the table covers common modes, not every CEA VIC.
pub open spec fn spec_hdtv_presets() -> Seq<DetailedTiming> {
    seq![
        spec_preset(3840, 2160, 176, 88, 296, 8, 10, 72, 594000, true, true, 60000),
        spec_preset(3840, 2160, 1056, 88, 296, 8, 10, 72, 594000, true, true, 50000),
        spec_preset(3840, 2160, 1276, 88, 296, 8, 10, 72, 594000, true, true, 48000),
        spec_preset(3840, 2160, 176, 88, 296, 8, 10, 72, 297000, true, true, 30000),
        spec_preset(3840, 2160, 1056, 88, 296, 8, 10, 72, 297000, true, true, 25000),
        spec_preset(3840, 2160, 1276, 88, 296, 8, 10, 72, 297000, true, true, 24000),
        spec_preset(1920, 1080, 88, 44, 148, 4, 5, 36, 297000, true, true, 120000),
        spec_preset(1920, 1080, 528, 44, 148, 4, 5, 36, 297000, true, true, 100000),
        spec_preset(1920, 1080, 88, 44, 148, 4, 5, 36, 148500, true, true, 60000),
        spec_preset(1920, 1080, 528, 44, 148, 4, 5, 36, 148500, true, true, 50000),
        spec_preset(1920, 1080, 638, 44, 148, 4, 5, 36, 148500, true, true, 48000),
        spec_preset(1920, 1080, 88, 44, 148, 4, 5, 36, 74250, true, true, 30000),
        spec_preset(1920, 1080, 528, 44, 148, 4, 5, 36, 74250, true, true, 25000),
        spec_preset(1920, 1080, 638, 44, 148, 4, 5, 36, 74250, true, true, 24000),
        spec_preset(1280, 720, 110, 40, 220, 5, 5, 20, 148500, true, true, 120000),
        spec_preset(1280, 720, 440, 40, 220, 5, 5, 20, 148500, true, true, 100000),
        spec_preset(1280, 720, 110, 40, 220, 5, 5, 20, 74250, true, true, 60000),
        spec_preset(1280, 720, 440, 40, 220, 5, 5, 20, 74250, true, true, 50000),
        spec_preset(1280, 720, 960, 40, 220, 5, 5, 20, 90000, true, true, 48000),
        spec_preset(1280, 720, 1760, 40, 220, 5, 5, 20, 74250, true, true, 30000),
        spec_preset(1280, 720, 2420, 40, 220, 5, 5, 20, 74250, true, true, 25000),
        spec_preset(1280, 720, 1760, 40, 220, 5, 5, 20, 59400, true, true, 24000),
    ]
}

/// CEA/HDTV presets; the table covers common modes, not every CEA VIC.
pub fn hdtv_presets() -> (v: Vec<DetailedTiming>)
    ensures
        v@ == spec_hdtv_presets(),
{
    let mut v: Vec<DetailedTiming> = Vec::new();
    v.push(preset(3840, 2160, 176, 88, 296, 8, 10, 72, 594000, true, true, 60000));
    v.push(preset(3840, 2160, 1056, 88, 296, 8, 10, 72, 594000, true, true, 50000));
    v.push(preset(3840, 2160, 1276, 88, 296, 8, 10, 72, 594000, true, true, 48000));
    v.push(preset(3840, 2160, 176, 88, 296, 8, 10, 72, 297000, true, true, 30000));
    v.push(preset(3840, 2160, 1056, 88, 296, 8, 10, 72, 297000, true, true, 25000));
    v.push(preset(3840, 2160, 1276, 88, 296, 8, 10, 72, 297000, true, true, 24000));
    v.push(preset(1920, 1080, 88, 44, 148, 4, 5, 36, 297000, true, true, 120000));
    v.push(preset(1920, 1080, 528, 44, 148, 4, 5, 36, 297000, true, true, 100000));
    v.push(preset(1920, 1080, 88, 44, 148, 4, 5, 36, 148500, true, true, 60000));
    v.push(preset(1920, 1080, 528, 44, 148, 4, 5, 36, 148500, true, true, 50000));
    v.push(preset(1920, 1080, 638, 44, 148, 4, 5, 36, 148500, true, true, 48000));
    v.push(preset(1920, 1080, 88, 44, 148, 4, 5, 36, 74250, true, true, 30000));
    v.push(preset(1920, 1080, 528, 44, 148, 4, 5, 36, 74250, true, true, 25000));
    v.push(preset(1920, 1080, 638, 44, 148, 4, 5, 36, 74250, true, true, 24000));
    v.push(preset(1280, 720, 110, 40, 220, 5, 5, 20, 148500, true, true, 120000));
    v.push(preset(1280, 720, 440, 40, 220, 5, 5, 20, 148500, true, true, 100000));
    v.push(preset(1280, 720, 110, 40, 220, 5, 5, 20, 74250, true, true, 60000));
    v.push(preset(1280, 720, 440, 40, 220, 5, 5, 20, 74250, true, true, 50000));
    v.push(preset(1280, 720, 960, 40, 220, 5, 5, 20, 90000, true, true, 48000));
    v.push(preset(1280, 720, 1760, 40, 220, 5, 5, 20, 74250, true, true, 30000));
    v.push(preset(1280, 720, 2420, 40, 220, 5, 5, 20, 74250, true, true, 25000));
    v.push(preset(1280, 720, 1760, 40, 220, 5, 5, 20, 59400, true, true, 24000));
    assert(v@ =~= spec_hdtv_presets());
    v
}

/// All preset tables: PC, then common wide-screen, then HDTV.
pub open spec fn spec_all_presets() -> Seq<DetailedTiming> {
    spec_pc_presets() + spec_common_wide_presets() + spec_hdtv_presets()
}

/// All preset timings: PC, then common wide-screen, then HDTV.
pub fn all_presets() -> (v: Vec<DetailedTiming>)
    ensures
        v@ == spec_all_presets(),
{
    let mut v = pc_presets();
    let mut wide = common_wide_presets();
    let mut hdtv = hdtv_presets();
    v.append(&mut wide);
    v.append(&mut hdtv);
    v
}

} // verus!
