//! Disk enumeration on Windows, from what `Get-Disk` reports.
use vstd::prelude::*;
use super::DiskInfo;
use crate::num::{decimal, push_decimal};
use crate::json::{
    bool_field, bool_member, optional_string_field, optional_string_member, string_field,
    string_member, u32_member, u64_member, uint_field, Json,
};
use crate::text::{chars_of, eq_ascii_fold, eq_ignore_ascii_case, extend_str, string_of};

verus! {

/// One disk as `Get-Disk` describes it.
pub struct RawDisk {
    pub number: u32,
    pub friendly_name: Option<String>,
    pub size: u64,
    pub bus_type: String,
    pub is_boot: bool,
    pub is_system: bool,
}

/// `info` is what [`list`] makes of the row `d`.
pub open spec fn describes(info: DiskInfo, d: RawDisk) -> bool {
    let is_usb = eq_ascii_fold(d.bus_type@, "USB"@);
    &&& info.device@ == "\\\\.\\PhysicalDrive"@ + decimal(d.number as nat)
    &&& info.display_device@ == "PhysicalDrive"@ + decimal(d.number as nat)
    &&& info.description@ == match d.friendly_name {
        Some(n) => n@,
        None => "Unknown device"@,
    }
    &&& info.size == d.size
    &&& info.is_removable == is_usb
    &&& info.is_external == is_usb
    &&& info.is_system == (d.is_boot || d.is_system)
}

/// A row that may be offered as a flash target: a USB disk (external and removable)
/// that is neither the system nor the boot disk.
pub open spec fn target_row(d: RawDisk) -> bool {
    !(d.is_boot || d.is_system) && eq_ascii_fold(d.bus_type@, "USB"@)
}

/// The rows of `rows` that may be offered as flash targets, in order.
pub open spec fn targets(rows: Seq<RawDisk>) -> Seq<RawDisk> {
    rows.filter(|d: RawDisk| target_row(d))
}

fn describe(d: &RawDisk) -> (res: DiskInfo)
    ensures
        describes(res, *d),
{
    let usb = chars_of("USB");
    let is_usb = eq_ignore_ascii_case(&chars_of(d.bus_type.as_str()), &usb);
    let mut device: Vec<char> = Vec::new();
    extend_str(&mut device, "\\\\.\\PhysicalDrive");
    push_decimal(&mut device, d.number as u64);
    let mut display: Vec<char> = Vec::new();
    extend_str(&mut display, "PhysicalDrive");
    push_decimal(&mut display, d.number as u64);
    let description = match &d.friendly_name {
        Some(n) => n.clone(),
        None => string_of(&chars_of("Unknown device")),
    };
    DiskInfo {
        device: string_of(&device),
        display_device: string_of(&display),
        description,
        size: d.size,
        is_removable: is_usb,
        is_external: is_usb,
        is_system: d.is_boot || d.is_system,
    }
}

/// All external/removable, non-system physical disks among those `Get-Disk` reported, in
/// its order: the USB disks, the system and boot disks excepted. `rows` is the parsed
/// report, or why it could not be had.
pub fn list(rows: Result<Vec<RawDisk>, String>) -> (res: Result<Vec<DiskInfo>, String>)
    ensures
        match rows {
            Err(e) => res matches Err(r) && r == e,
            Ok(ds) => res matches Ok(infos) && infos@.len() == targets(ds@).len() && forall|k: int|
                0 <= k < infos@.len() ==> describes(#[trigger] infos@[k], targets(ds@)[k]),
        },
{
    match rows {
        Err(e) => Err(e),
        Ok(ds) => {
            let mut out: Vec<DiskInfo> = Vec::new();
            let mut i: usize = 0;
            while i < ds.len()
                invariant
                    i <= ds.len(),
                    out@.len() == targets(ds@.take(i as int)).len(),
                    forall|k: int|
                        0 <= k < out@.len() ==> describes(
                            #[trigger] out@[k],
                            targets(ds@.take(i as int))[k],
                        ),
                decreases ds.len() - i,
            {
                let ghost pre = ds@.take(i as int);
                assert(ds@.take(i + 1).drop_last() == pre);
                reveal_with_fuel(Seq::filter, 1);
                let usb = eq_ignore_ascii_case(&chars_of(ds[i].bus_type.as_str()), &chars_of("USB"));
                if !(ds[i].is_boot || ds[i].is_system) && usb {
                    let info = describe(&ds[i]);
                    out.push(info);
                }
                i = i + 1;
            }
            assert(ds@.take(ds.len() as int) == ds@);
            Ok(out)
        },
    }
}

/// Only external or removable, non-system disks are offered as flash targets: every disk
/// that [`list`] reports for `rows` is external, removable and not a system disk.
pub proof fn lemma_only_external_disks_listed(rows: Seq<RawDisk>, infos: Seq<DiskInfo>)
    requires
        infos.len() == targets(rows).len(),
        forall|k: int| 0 <= k < infos.len() ==> describes(#[trigger] infos[k], targets(rows)[k]),
    ensures
        forall|k: int|
            0 <= k < infos.len() ==> !(#[trigger] infos[k]).is_system && infos[k].is_external
                && infos[k].is_removable,
{
    assert forall|k: int| 0 <= k < infos.len() implies !(#[trigger] infos[k]).is_system
        && infos[k].is_external && infos[k].is_removable by {
        let pred = |d: RawDisk| target_row(d);
        rows.lemma_filter_pred(pred, k);
        assert(describes(infos[k], targets(rows)[k]));
    }
}

/// What is wrong with a `Get-Disk` row, checked field by field in declaration order:
/// `None` when it reads as a [`RawDisk`].
pub open spec fn row_error(v: Json) -> Option<Seq<char>> {
    if !(v is Object) {
        Some(crate::json::not_an_object())
    } else {
        match uint_field(v, "Number"@, u32::MAX as nat) {
            Err(e) => Some(e),
            Ok(_) => match optional_string_field(v, "FriendlyName"@) {
                Err(e) => Some(e),
                Ok(_) => match uint_field(v, "Size"@, u64::MAX as nat) {
                    Err(e) => Some(e),
                    Ok(_) => match string_field(v, "BusType"@) {
                        Err(e) => Some(e),
                        Ok(_) => match bool_field(v, "IsBoot"@) {
                            Err(e) => Some(e),
                            Ok(_) => match bool_field(v, "IsSystem"@) {
                                Err(e) => Some(e),
                                Ok(_) => None,
                            },
                        },
                    },
                },
            },
        }
    }
}

/// `d` holds the fields of the `Get-Disk` row `v`.
pub open spec fn row_reads_as(v: Json, d: RawDisk) -> bool {
    &&& uint_field(v, "Number"@, u32::MAX as nat) == Ok::<nat, Seq<char>>(d.number as nat)
    &&& optional_string_field(v, "FriendlyName"@) == Ok::<Option<Seq<char>>, Seq<char>>(
        match d.friendly_name {
            Some(n) => Some(n@),
            None => None,
        },
    )
    &&& uint_field(v, "Size"@, u64::MAX as nat) == Ok::<nat, Seq<char>>(d.size as nat)
    &&& string_field(v, "BusType"@) == Ok::<Seq<char>, Seq<char>>(d.bus_type@)
    &&& bool_field(v, "IsBoot"@) == Ok::<bool, Seq<char>>(d.is_boot)
    &&& bool_field(v, "IsSystem"@) == Ok::<bool, Seq<char>>(d.is_system)
}

/// Reads one `Get-Disk` row.
pub fn raw_disk(v: &Json) -> (res: Result<RawDisk, String>)
    ensures
        match res {
            Ok(d) => row_error(*v) is None && row_reads_as(*v, d),
            Err(e) => row_error(*v) == Some(e@),
        },
{
    match v {
        Json::Object(_) => {},
        _ => return Err(string_of(&chars_of("invalid type: expected an object"))),
    }
    let number = match u32_member(v, "Number") {
        Ok(n) => n,
        Err(e) => return Err(e),
    };
    let friendly_name = match optional_string_member(v, "FriendlyName") {
        Ok(n) => n,
        Err(e) => return Err(e),
    };
    let size = match u64_member(v, "Size") {
        Ok(n) => n,
        Err(e) => return Err(e),
    };
    let bus_type = match string_member(v, "BusType") {
        Ok(b) => b,
        Err(e) => return Err(e),
    };
    let is_boot = match bool_member(v, "IsBoot") {
        Ok(b) => b,
        Err(e) => return Err(e),
    };
    let is_system = match bool_member(v, "IsSystem") {
        Ok(b) => b,
        Err(e) => return Err(e),
    };
    Ok(RawDisk { number, friendly_name, size, bus_type, is_boot, is_system })
}

/// Reads the rows of `Get-Disk`'s JSON report (as [`crate::win_ps::json_array`] hands them
/// out); the first row that does not read stops it, with `what` naming the report.
pub fn raw_disks(items: &Vec<Json>, what: &str) -> (res: Result<Vec<RawDisk>, String>)
    ensures
        match res {
            Ok(rows) => rows@.len() == items@.len() && forall|k: int|
                0 <= k < items@.len() ==> row_error(#[trigger] items@[k]) is None && row_reads_as(
                    items@[k],
                    rows@[k],
                ),
            Err(e) => exists|k: int|
                0 <= k < items@.len() && (forall|j: int| 0 <= j < k ==> row_error(#[trigger] items@[j]) is None)
                    && (row_error(#[trigger] items@[k]) matches Some(m) && e@ == "unexpected "@ + what@
                    + " JSON: "@ + m),
        },
{
    let mut rows: Vec<RawDisk> = Vec::new();
    let mut i: usize = 0;
    while i < items.len()
        invariant
            i <= items.len(),
            rows@.len() == i,
            forall|k: int|
                0 <= k < i ==> row_error(#[trigger] items@[k]) is None && row_reads_as(items@[k], rows@[k]),
        decreases items.len() - i,
    {
        match raw_disk(&items[i]) {
            Ok(d) => rows.push(d),
            Err(m) => {
                let mut msg: Vec<char> = Vec::new();
                extend_str(&mut msg, "unexpected ");
                extend_str(&mut msg, what);
                extend_str(&mut msg, " JSON: ");
                extend_str(&mut msg, m.as_str());
                let e = string_of(&msg);
                assert(forall|j: int| 0 <= j < i ==> row_error(#[trigger] items@[j]) is None);
                assert(row_error(items@[i as int]) == Some(m@));
                return Err(e);
            },
        }
        i = i + 1;
    }
    Ok(rows)
}

} // verus!
