# Reachy Mini flasher

Reflashes the ReachyMiniOS image onto the CM4 eMMC of a Reachy Mini over USB:
detect the robot, expose its eMMC with `rpiboot`, fetch the OS image, write it
block-aligned to the raw device, and report progress.

## Layout

- `src/` - the library, verified with Verus. Every decision of the flasher lives
  here with its contract: recognising the robot (`detect`), the disks offered as
  targets (`disks`), the image cache and its ranged downloads (`images`), the
  block-aligning writer and the worker/GUI protocol (`flash`), locating and
  running `rpiboot` (`rpiboot`), the WinUSB driver (`win_driver`), PowerShell
  encoding, quoting and output reading (`win_ps`), physical-drive paths and
  volume release (`win_volume`), and the text and number handling they share
  (`text`, `num`, `json`).
- `app/` - the program around it: processes, files, sockets, the network, USB
  enumeration and the Win32 calls, handing plain values to the library and
  printing what the front end is told as JSON lines.
- `tests/` - tests of the library on concrete values.

The laws the library states (proof functions named `lemma_*`) include: the
progress and verdict lines the elevated worker writes read back as what it
meant; a PowerShell script passed with `-EncodedCommand` decodes back to itself;
a value quoted for PowerShell reads back as itself; device paths survive
`simplify`; the ranges of a download tile it exactly; only external, non-system
disks are offered as targets; a cache refresh keeps exactly the release's files;
base64 output has the standard length and padding; a drive number reads back out
of its `\\.\PhysicalDriveN` path; finishing a write sends the data followed by
zeros up to the next block.
