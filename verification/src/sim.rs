//! Simulation mode: a fake Reachy, a small local image and a temporary file as the disk,
//! so that detection, flashing and progress can be exercised without a robot.
use vstd::prelude::*;
use crate::text::join_path;
use crate::win_driver::joined_onto;

verus! {

/// The directory of the simulated image and disk: `reachy-mini-flasher-sim` in the
/// temporary directory `temp`.
pub fn dir(temp: &str) -> (res: String)
    ensures
        joined_onto(temp@, "reachy-mini-flasher-sim"@, res@),
{
    proof {
        reveal_strlit("reachy-mini-flasher-sim");
    }
    join_path(temp, "reachy-mini-flasher-sim")
}

/// The file that stands for the disk in simulation: `sim-disk.img` in [`dir`].
pub fn target_path(temp: &str) -> (res: String)
    ensures
        exists|d: Seq<char>|
            joined_onto(temp@, "reachy-mini-flasher-sim"@, d) && #[trigger] joined_onto(
                d,
                "sim-disk.img"@,
                res@,
            ),
{
    let d = dir(temp);
    proof {
        reveal_strlit("sim-disk.img");
    }
    let p = join_path(d.as_str(), "sim-disk.img");
    assert(joined_onto(d@, "sim-disk.img"@, p@));
    p
}

} // verus!
