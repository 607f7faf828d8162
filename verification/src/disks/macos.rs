//! Disk enumeration on macOS, from the property lists that `diskutil` prints.
use vstd::prelude::*;
use super::DiskInfo;
use crate::text::{chars_of, extend_str, str_eq, string_of, trim, trim_chars};

verus! {

/// A value of a property-list dictionary, as far as disk enumeration reads it: a string, a
/// boolean, an integer (with its value when that is a non-negative `u64`), an array (with
/// each element's text when the element is a string), or anything else.
pub enum PlistEntry {
    Text(String),
    Boolean(bool),
    Integer(Option<u64>),
    Array(Vec<Option<String>>),
    Other,
}

/// What `plist::Value::from_reader` makes of a `diskutil -plist` output: the members of
/// the top-level dictionary (`None` when the top level is not a dictionary), or the text
/// of the error it reports.
pub uninterp spec fn plist_reading(bytes: Seq<u8>) -> Result<Option<Seq<(String, PlistEntry)>>, Seq<char>>;

/// `plist::Value::from_reader` on a `diskutil -plist` output, with the top-level
/// dictionary's members converted variant for variant. The result is named by
/// [`plist_reading`]; it depends on the bytes alone.
#[verifier::external_body]
fn read_plist(bytes: &[u8]) -> (res: Result<Option<Vec<(String, PlistEntry)>>, String>)
    ensures
        match res {
            Ok(None) => plist_reading(bytes@) == Ok::<Option<Seq<(String, PlistEntry)>>, Seq<char>>(None),
            Ok(Some(m)) => plist_reading(bytes@) == Ok::<Option<Seq<(String, PlistEntry)>>, Seq<char>>(Some(m@)),
            Err(e) => plist_reading(bytes@) == Err::<Option<Seq<(String, PlistEntry)>>, Seq<char>>(e@),
        },
{
    let value = plist::Value::from_reader(std::io::Cursor::new(bytes)).map_err(|e| e.to_string())?;
    Ok(value.into_dictionary().map(|dict| dict.into_iter().map(|(key, v)| (key, match v {
        plist::Value::String(s) => PlistEntry::Text(s),
        plist::Value::Boolean(b) => PlistEntry::Boolean(b),
        plist::Value::Integer(i) => PlistEntry::Integer(i.as_unsigned()),
        plist::Value::Array(items) => PlistEntry::Array(items.into_iter().map(|x| x.into_string()).collect()),
        _ => PlistEntry::Other,
    })).collect()))
}

/// The first member of `members` under `key` (`Dictionary::get`; keys are unique there).
pub open spec fn entry(members: Seq<(String, PlistEntry)>, key: Seq<char>) -> Option<PlistEntry>
    decreases members.len(),
{
    if members.len() == 0 {
        None
    } else if members[0].0@ == key {
        Some(members[0].1)
    } else {
        entry(members.drop_first(), key)
    }
}

/// The member under `key`.
fn get<'a>(members: &'a Vec<(String, PlistEntry)>, key: &str) -> (res: Option<&'a PlistEntry>)
    ensures
        match res {
            Some(r) => entry(members@, key@) == Some(*r),
            None => entry(members@, key@) is None,
        },
{
    let mut i: usize = 0;
    assert(members@.skip(0) == members@);
    while i < members.len()
        invariant
            i <= members.len(),
            entry(members@, key@) == entry(members@.skip(i as int), key@),
        decreases members.len() - i,
    {
        assert(members@.skip(i as int).drop_first() == members@.skip(i + 1));
        if str_eq(members[i].0.as_str(), key) {
            assert(members@.skip(i as int)[0] == members@[i as int]);
            return Some(&members[i].1);
        }
        i = i + 1;
    }
    None
}

/// The member under `key`, or else the one under `fallback`.
pub open spec fn entry_or(members: Seq<(String, PlistEntry)>, key: Seq<char>, fallback: Seq<char>) -> Option<PlistEntry> {
    match entry(members, key) {
        Some(e) => Some(e),
        None => entry(members, fallback),
    }
}

/// The text of each string element of the `WholeDisks` array, in order.
pub open spec fn strings_of(items: Seq<Option<String>>) -> Seq<Seq<char>>
    decreases items.len(),
{
    if items.len() == 0 {
        seq![]
    } else {
        match items.last() {
            Some(s) => strings_of(items.drop_last()).push(s@),
            None => strings_of(items.drop_last()),
        }
    }
}

/// The whole-disk identifiers that `diskutil list -plist external physical` reported, or
/// the plist error.
pub open spec fn whole_disks(bytes: Seq<u8>) -> Result<Seq<Seq<char>>, Seq<char>> {
    match plist_reading(bytes) {
        Err(e) => Err("failed to parse diskutil plist: "@ + e),
        Ok(None) => Ok(seq![]),
        Ok(Some(members)) => match entry(members, "WholeDisks"@) {
            Some(PlistEntry::Array(items)) => Ok(strings_of(items@)),
            _ => Ok(seq![]),
        },
    }
}

/// Reads the whole-disk identifiers out of `diskutil list -plist external physical`.
pub fn whole_disk_ids(list_output: &[u8]) -> (res: Result<Vec<String>, String>)
    ensures
        match res {
            Ok(ids) => whole_disks(list_output@) == Ok::<Seq<Seq<char>>, Seq<char>>(
                crate::disks::macos::texts(ids@),
            ),
            Err(e) => whole_disks(list_output@) == Err::<Seq<Seq<char>>, Seq<char>>(e@),
        },
{
    match read_plist(list_output) {
        Err(e) => {
            let mut msg: Vec<char> = Vec::new();
            extend_str(&mut msg, "failed to parse diskutil plist: ");
            extend_str(&mut msg, e.as_str());
            Err(string_of(&msg))
        },
        Ok(None) => {
            let out: Vec<String> = Vec::new();
            assert(texts(out@) =~= Seq::<Seq<char>>::empty());
            Ok(out)
        },
        Ok(Some(members)) => {
            let mut out: Vec<String> = Vec::new();
            match get(&members, "WholeDisks") {
                Some(PlistEntry::Array(items)) => {
                    let mut i: usize = 0;
                    while i < items.len()
                        invariant
                            i <= items.len(),
                            texts(out@) == strings_of(items@.take(i as int)),
                        decreases items.len() - i,
                    {
                        assert(items@.take(i + 1).drop_last() == items@.take(i as int));
                        match &items[i] {
                            Some(s) => {
                                let ghost before = texts(out@);
                                out.push(s.clone());
                                assert(texts(out@) =~= before.push(s@));
                            },
                            None => {},
                        }
                        i = i + 1;
                    }
                    assert(items@.take(items.len() as int) == items@);
                },
                _ => {
                    assert(texts(out@) =~= Seq::<Seq<char>>::empty());
                },
            }
            Ok(out)
        },
    }
}

/// The contents of each string.
pub open spec fn texts(v: Seq<String>) -> Seq<Seq<char>> {
    v.map_values(|s: String| s@)
}

/// A boolean member, `false` when missing or not a boolean.
pub open spec fn flag(e: Option<PlistEntry>) -> bool {
    match e {
        Some(PlistEntry::Boolean(b)) => b,
        _ => false,
    }
}

/// `info` is what [`disk_info`] makes of disk `id`'s dictionary `members`.
pub open spec fn disk_described(info: DiskInfo, id: Seq<char>, members: Seq<(String, PlistEntry)>) -> bool {
    &&& info.device@ == "/dev/r"@ + id
    &&& info.display_device@ == "/dev/"@ + id
    &&& info.description@ == trim(
        match entry_or(members, "MediaName"@, "IORegistryEntryName"@) {
            Some(PlistEntry::Text(s)) => s@,
            _ => "Unknown device"@,
        },
    )
    &&& info.size == match entry_or(members, "Size"@, "TotalSize"@) {
        Some(PlistEntry::Integer(Some(n))) => n,
        _ => 0,
    }
    &&& info.is_removable == flag(entry_or(members, "RemovableMedia"@, "Removable"@))
    &&& info.is_external == !flag(entry(members, "Internal"@))
    &&& !info.is_system
}

/// The flash target that `diskutil info -plist /dev/<id>` describes, or why it could not
/// be read.
pub open spec fn disk_info_result(id: Seq<char>, bytes: Seq<u8>) -> Result<(), Seq<char>> {
    match plist_reading(bytes) {
        Err(e) => Err("failed to parse diskutil plist: "@ + e),
        Ok(None) => Err("unexpected diskutil info format"@),
        Ok(Some(_)) => Ok(()),
    }
}

fn lookup_or<'a>(members: &'a Vec<(String, PlistEntry)>, key: &str, fallback: &str) -> (res: Option<&'a PlistEntry>)
    ensures
        match res {
            Some(r) => entry_or(members@, key@, fallback@) == Some(*r),
            None => entry_or(members@, key@, fallback@) is None,
        },
{
    match get(members, key) {
        Some(e) => Some(e),
        None => get(members, fallback),
    }
}

/// Describes disk `id` from the output of `diskutil info -plist /dev/<id>`. It came from
/// an `external physical` listing, so it is never the system disk.
pub fn disk_info(id: &str, info_output: &[u8]) -> (res: Result<DiskInfo, String>)
    ensures
        match res {
            Ok(info) => disk_info_result(id@, info_output@) is Ok && (plist_reading(info_output@) matches Ok(Some(m)) && disk_described(info, id@, m)),
            Err(e) => disk_info_result(id@, info_output@) == Err::<(), Seq<char>>(e@),
        },
{
    let members = match read_plist(info_output) {
        Err(e) => {
            let mut msg: Vec<char> = Vec::new();
            extend_str(&mut msg, "failed to parse diskutil plist: ");
            extend_str(&mut msg, e.as_str());
            return Err(string_of(&msg));
        },
        Ok(None) => {
            return Err(string_of(&chars_of("unexpected diskutil info format")));
        },
        Ok(Some(m)) => m,
    };
    let size: u64 = match lookup_or(&members, "Size", "TotalSize") {
        Some(PlistEntry::Integer(Some(n))) => *n,
        _ => 0,
    };
    let name = match lookup_or(&members, "MediaName", "IORegistryEntryName") {
        Some(PlistEntry::Text(s)) => chars_of(s.as_str()),
        _ => chars_of("Unknown device"),
    };
    let internal = match get(&members, "Internal") {
        Some(PlistEntry::Boolean(b)) => *b,
        _ => false,
    };
    let removable = match lookup_or(&members, "RemovableMedia", "Removable") {
        Some(PlistEntry::Boolean(b)) => *b,
        _ => false,
    };
    let mut device: Vec<char> = Vec::new();
    extend_str(&mut device, "/dev/r");
    extend_str(&mut device, id);
    let mut display: Vec<char> = Vec::new();
    extend_str(&mut display, "/dev/");
    extend_str(&mut display, id);
    Ok(DiskInfo {
        device: string_of(&device),
        display_device: string_of(&display),
        description: string_of(&trim_chars(&name)),
        size,
        is_removable: removable,
        is_external: !internal,
        is_system: false,
    })
}

/// The disks whose description could be read, in order; the others are skipped.
pub fn list(infos: Vec<Result<DiskInfo, String>>) -> (res: Vec<DiskInfo>)
    ensures
        res@ == infos@.filter(|r: Result<DiskInfo, String>| r is Ok).map_values(
            |r: Result<DiskInfo, String>| r->Ok_0,
        ),
{
    let mut out: Vec<DiskInfo> = Vec::new();
    let mut i: usize = 0;
    while i < infos.len()
        invariant
            i <= infos.len(),
            out@ == infos@.take(i as int).filter(|r: Result<DiskInfo, String>| r is Ok).map_values(
                |r: Result<DiskInfo, String>| r->Ok_0,
            ),
        decreases infos.len() - i,
    {
        assert(infos@.take(i + 1).drop_last() == infos@.take(i as int));
        reveal_with_fuel(Seq::filter, 1);
        match &infos[i] {
            Ok(d) => {
                out.push(d.duplicate());
            },
            Err(_) => {},
        }
        i = i + 1;
    }
    assert(infos@.take(infos.len() as int) == infos@);
    out
}

} // verus!
