//! Which hwmon directory belongs to which chip, and to which fan.

use crate::config::FanConfig;
use crate::idmap::IdMap;
use crate::idmap;
use crate::paths;
use crate::text;
use vstd::prelude::*;
use vstd::string::*;

verus! {

/// Where the kernel lists the hwmon devices.
pub const HWMON_ROOT: &'static str = "/sys/class/hwmon";

/// Why no directory could be found. The sources are messages of the system.
#[derive(Debug, Clone, PartialEq, Eq)]
#[allow(inconsistent_fields)]
pub enum ChipError {
    ReadDir { root: String, source: String },
    ReadName { path: String, source: String },
    ChipNotFound { fan_id: String, chip: String, available: Vec<String> },
    NoSelector { fan_id: String },
    HwmonPathMissing { fan_id: String, path: String },
}

/// What reading the `name` file of a directory gave: its contents, that there is
/// none, or the message of another error.
#[derive(Debug, Clone, PartialEq, Eq)]
pub enum NameFile {
    Contents(String),
    Missing,
    Unreadable(String),
}

/// An entry of the hwmon root.
#[derive(Debug, Clone, PartialEq, Eq)]
pub struct HwmonEntry {
    pub path: String,
    pub is_dir: bool,
    pub name: NameFile,
}

/// The entries of the hwmon root in the order of the listing. Listing the
/// directory can fail as a whole or at an entry, each with a message.
pub type Listing = Result<Vec<Result<HwmonEntry, String>>, String>;

/// The meaning of a `ChipError`.
#[allow(inconsistent_fields)]
pub enum ChipFault {
    ReadDir { root: Seq<char>, source: Seq<char> },
    ReadName { path: Seq<char>, source: Seq<char> },
    ChipNotFound { fan_id: Seq<char>, chip: Seq<char>, available: Seq<Seq<char>> },
    NoSelector { fan_id: Seq<char> },
    HwmonPathMissing { fan_id: Seq<char>, path: Seq<char> },
}

impl View for ChipError {
    type V = ChipFault;

    open spec fn view(&self) -> ChipFault {
        match *self {
            ChipError::ReadDir { root, source } => ChipFault::ReadDir {
                root: root@,
                source: source@,
            },
            ChipError::ReadName { path, source } => ChipFault::ReadName {
                path: path@,
                source: source@,
            },
            ChipError::ChipNotFound { fan_id, chip, available } => ChipFault::ChipNotFound {
                fan_id: fan_id@,
                chip: chip@,
                available: text::strings(available@),
            },
            ChipError::NoSelector { fan_id } => ChipFault::NoSelector { fan_id: fan_id@ },
            ChipError::HwmonPathMissing { fan_id, path } => ChipFault::HwmonPathMissing {
                fan_id: fan_id@,
                path: path@,
            },
        }
    }
}

/// The paths under the names of chips.
pub open spec fn chip_paths(m: Map<Seq<char>, String>) -> Map<Seq<char>, Seq<char>> {
    m.map_values(|p: String| p@)
}

/// The file that holds the name of the chip in a directory.
pub fn name_path(dir: &str) -> (r: String)
    ensures
        r@ == paths::joined(dir@, "name"@),
{
    paths::join(dir, "name")
}

/// The chips known after one more entry. What is no directory, and a directory
/// without a name file, is passed over.
pub open spec fn with_entry(
    root: Seq<char>,
    known: Map<Seq<char>, Seq<char>>,
    entry: Result<HwmonEntry, String>,
) -> Result<Map<Seq<char>, Seq<char>>, ChipFault> {
    match entry {
        Err(source) => Err(ChipFault::ReadDir { root, source: source@ }),
        Ok(e) => if !e.is_dir {
            Ok(known)
        } else {
            match e.name {
                NameFile::Missing => Ok(known),
                NameFile::Unreadable(source) => Err(
                    ChipFault::ReadName { path: e.path@, source: source@ },
                ),
                NameFile::Contents(raw) => Ok(known.insert(text::trimmed(raw@), e.path@)),
            }
        },
    }
}

/// The chips in a list of entries, or the first error. Where two directories bear
/// the same name, the later one counts.
pub open spec fn scan_of(root: Seq<char>, entries: Seq<Result<HwmonEntry, String>>) -> Result<
    Map<Seq<char>, Seq<char>>,
    ChipFault,
>
    decreases entries.len(),
{
    if entries.len() == 0 {
        Ok(Map::empty())
    } else {
        match scan_of(root, entries.drop_last()) {
            Err(e) => Err(e),
            Ok(known) => with_entry(root, known, entries.last()),
        }
    }
}

/// What a listing says about the chips.
pub open spec fn listing_of(root: Seq<char>, listing: Listing) -> Result<
    Map<Seq<char>, Seq<char>>,
    ChipFault,
> {
    match listing {
        Err(source) => Err(ChipFault::ReadDir { root, source: source@ }),
        Ok(entries) => scan_of(root, entries@),
    }
}

/// The result of a scan, with the meaning of each part in its place.
pub open spec fn scan_result(r: Result<IdMap<String>, ChipError>) -> Result<
    Map<Seq<char>, Seq<char>>,
    ChipFault,
> {
    match r {
        Ok(m) => Ok(chip_paths(m@)),
        Err(e) => Err(e@),
    }
}

proof fn lemma_scan_error_stays(
    root: Seq<char>,
    entries: Seq<Result<HwmonEntry, String>>,
    n: int,
)
    requires
        0 <= n <= entries.len(),
        scan_of(root, entries.take(n)) is Err,
    ensures
        scan_of(root, entries) == scan_of(root, entries.take(n)),
    decreases entries.len() - n,
{
    if n == entries.len() {
        assert(entries.take(n) =~= entries);
    } else {
        assert(entries.take(n + 1).drop_last() =~= entries.take(n));
        lemma_scan_error_stays(root, entries, n + 1);
    }
}

/// Finds the chips under `root`, given its listing.
pub fn scan_at(root: &str, listing: Listing) -> (r: Result<IdMap<String>, ChipError>)
    ensures
        scan_result(r) == listing_of(root@, listing),
{
    let entries: Vec<Result<HwmonEntry, String>> = match listing {
        Ok(entries) => entries,
        Err(source) => return Err(ChipError::ReadDir { root: root.to_string(), source }),
    };
    let mut known: IdMap<String> = IdMap::new();
    let mut i: usize = 0;
    assert(chip_paths(known@) =~= Map::empty());
    while i < entries.len()
        invariant
            i <= entries.len(),
            listing == Listing::Ok(entries),
            scan_of(root@, entries@.take(i as int)) == Ok::<Map<Seq<char>, Seq<char>>, ChipFault>(
                chip_paths(known@),
            ),
        decreases entries.len() - i,
    {
        assert(entries@.take(i + 1).drop_last() =~= entries@.take(i as int));
        assert(entries@.take(i + 1).last() == entries@[i as int]);
        match &entries[i] {
            Err(source) => {
                proof {
                    lemma_scan_error_stays(root@, entries@, i + 1);
                }
                return Err(ChipError::ReadDir { root: root.to_string(), source: source.clone() });
            },
            Ok(entry) => {
                if entry.is_dir {
                    match &entry.name {
                        NameFile::Missing => {},
                        NameFile::Unreadable(source) => {
                            proof {
                                lemma_scan_error_stays(root@, entries@, i + 1);
                            }
                            return Err(
                                ChipError::ReadName {
                                    path: entry.path.clone(),
                                    source: source.clone(),
                                },
                            );
                        },
                        NameFile::Contents(raw) => {
                            let name: &str = text::trim(raw.as_str());
                            let ghost before = known@;
                            known.insert(name.to_string(), entry.path.clone());
                            assert(chip_paths(known@) =~= chip_paths(before).insert(
                                name@,
                                entry.path@,
                            ));
                        },
                    }
                }
            },
        }
        i = i + 1;
    }
    assert(entries@.take(i as int) =~= entries@);
    Ok(known)
}

/// Finds the chips of the running system, given the listing of `HWMON_ROOT`.
pub fn scan(listing: Listing) -> (r: Result<IdMap<String>, ChipError>)
    ensures
        scan_result(r) == listing_of(HWMON_ROOT@, listing),
{
    scan_at(HWMON_ROOT, listing)
}

/// The directory of a fan. A given `hwmon_path` is taken as it is, provided that it
/// exists (`hwmon_path_exists` says so of the path in `fan_cfg`); otherwise the
/// chip is looked up. A chip that is not there is reported together with all that
/// are. `device_path` alone selects nothing.
pub fn resolve(map: &IdMap<String>, fan_cfg: &FanConfig, hwmon_path_exists: bool) -> (r: Result<
    String,
    ChipError,
>)
    ensures
        match (fan_cfg@.hwmon_path, fan_cfg@.chip) {
            (Some(path), _) => if hwmon_path_exists {
                r matches Ok(p) && p@ == path
            } else {
                r matches Err(e) && e@ == (ChipFault::HwmonPathMissing {
                    fan_id: fan_cfg@.id,
                    path,
                })
            },
            (None, Some(chip)) => if chip_paths(map@).dom().contains(chip) {
                r matches Ok(p) && p@ == chip_paths(map@)[chip]
            } else {
                r matches Err(e) && e@ matches ChipFault::ChipNotFound {
                    fan_id,
                    chip: c,
                    available,
                } && fan_id == fan_cfg@.id && c == chip && idmap::ascending(available)
                    && available.to_set() == chip_paths(map@).dom()
            },
            (None, None) => r matches Err(e) && e@ == (ChipFault::NoSelector {
                fan_id: fan_cfg@.id,
            }),
        },
{
    match &fan_cfg.hwmon_path {
        Some(path) => {
            if !hwmon_path_exists {
                return Err(
                    ChipError::HwmonPathMissing {
                        fan_id: fan_cfg.id.clone(),
                        path: path.clone(),
                    },
                );
            }
            return Ok(path.clone());
        },
        None => {},
    }
    match &fan_cfg.chip {
        Some(chip) => match map.get(chip.as_str()) {
            Some(path) => Ok(path.clone()),
            None => {
                let available: Vec<String> = map.sorted_names();
                assert(chip_paths(map@).dom() =~= map@.dom());
                Err(
                    ChipError::ChipNotFound {
                        fan_id: fan_cfg.id.clone(),
                        chip: chip.clone(),
                        available,
                    },
                )
            },
        },
        None => Err(ChipError::NoSelector { fan_id: fan_cfg.id.clone() }),
    }
}

/// The name that an entry gives to its directory.
pub open spec fn chip_name(entry: Result<HwmonEntry, String>) -> Option<Seq<char>> {
    match entry {
        Ok(e) => match e.name {
            NameFile::Contents(raw) => if e.is_dir {
                Some(text::trimmed(raw@))
            } else {
                None
            },
            _ => None,
        },
        Err(_) => None,
    }
}

/// A scan finds every chip and nothing else: a name is known exactly if a directory
/// bears it, and it stands for the last directory that does.
pub proof fn scan_is_exact(
    root: Seq<char>,
    entries: Seq<Result<HwmonEntry, String>>,
    name: Seq<char>,
)
    requires
        scan_of(root, entries) is Ok,
    ensures
        scan_of(root, entries)->Ok_0.dom().contains(name) <==> exists|i: int|
            0 <= i < entries.len() && chip_name(#[trigger] entries[i]) == Some(name),
        forall|i: int|
            0 <= i < entries.len() && chip_name(#[trigger] entries[i]) == Some(name) && (
            forall|j: int|
                i < j < entries.len() ==> chip_name(#[trigger] entries[j]) != Some(name))
                ==> scan_of(root, entries)->Ok_0[name] == entries[i]->Ok_0.path@,
    decreases entries.len(),
{
    if entries.len() > 0 {
        let front = entries.drop_last();
        let known = scan_of(root, entries)->Ok_0;
        let before = scan_of(root, front)->Ok_0;
        scan_is_exact(root, front, name);
        if chip_name(entries.last()) == Some(name) {
            assert(chip_name(entries[entries.len() - 1]) == Some(name));
        } else {
            assert(known.dom().contains(name) == before.dom().contains(name));
            if before.dom().contains(name) {
                let i = choose|i: int|
                    0 <= i < front.len() && chip_name(#[trigger] front[i]) == Some(name);
                assert(entries[i] == front[i]);
            }
            assert forall|i: int|
                0 <= i < entries.len() && chip_name(#[trigger] entries[i]) == Some(
                    name,
                ) implies i < front.len() && front[i] == entries[i] by {}
        }
        assert forall|i: int|
            0 <= i < entries.len() && chip_name(#[trigger] entries[i]) == Some(name) && (
            forall|j: int|
                i < j < entries.len() ==> chip_name(#[trigger] entries[j]) != Some(
                    name,
                )) implies known[name] == entries[i]->Ok_0.path@ by {
            if i < front.len() {
                assert(chip_name(entries[entries.len() - 1]) != Some(name));
                assert(front[i] == entries[i]);
                assert forall|j: int| i < j < front.len() implies chip_name(#[trigger] front[j])
                    != Some(name) by {
                    assert(front[j] == entries[j]);
                }
            }
        }
    }
}

/// Whether an entry is a directory whose name file holds `name`, with white space around
/// it or not.
pub open spec fn is_directory_of(entry: Result<HwmonEntry, String>, name: Seq<char>) -> bool {
    &&& entry is Ok
    &&& entry->Ok_0.is_dir
    &&& entry->Ok_0.name is Contents
    &&& text::trimmed(entry->Ok_0.name->Contents_0@) == name
}

/// Whether an entry ends a scan: it could not be listed, or it is a directory whose name
/// file is there and cannot be read.
pub open spec fn ends_a_scan(entry: Result<HwmonEntry, String>) -> bool {
    entry is Err || (entry->Ok_0.is_dir && entry->Ok_0.name is Unreadable)
}

proof fn lemma_scan_goes_on(root: Seq<char>, entries: Seq<Result<HwmonEntry, String>>, k: int)
    requires
        0 <= k <= entries.len(),
        forall|i: int| 0 <= i < k ==> !ends_a_scan(#[trigger] entries[i]),
    ensures
        scan_of(root, entries.take(k)) is Ok,
    decreases k,
{
    if k > 0 {
        lemma_scan_goes_on(root, entries, k - 1);
        assert(entries.take(k).drop_last() =~= entries.take(k - 1));
        assert(entries.take(k).last() == entries[k - 1]);
        assert(!ends_a_scan(entries[k - 1]));
    } else {
        assert(entries.take(0).len() == 0);
    }
}

/// A scan fails at the first entry that cannot be listed, which is blamed on the root, or
/// whose name cannot be read, which is blamed on its directory; without such an entry it
/// succeeds. A root that cannot be listed at all fails it from the start.
pub proof fn first_bad_entry_ends_the_scan(
    root: Seq<char>,
    entries: Vec<Result<HwmonEntry, String>>,
    message: String,
    k: int,
)
    requires
        0 <= k <= entries@.len(),
        forall|i: int| 0 <= i < k ==> !ends_a_scan(#[trigger] entries@[i]),
    ensures
        listing_of(root, Err(message)) == Err::<Map<Seq<char>, Seq<char>>, ChipFault>(
            ChipFault::ReadDir { root, source: message@ },
        ),
        k == entries@.len() ==> listing_of(root, Ok(entries)) is Ok,
        k < entries@.len() && entries@[k] is Err ==> listing_of(root, Ok(entries)) == Err::<
            Map<Seq<char>, Seq<char>>,
            ChipFault,
        >(ChipFault::ReadDir { root, source: entries@[k]->Err_0@ }),
        k < entries@.len() && entries@[k] is Ok && ends_a_scan(entries@[k]) ==> listing_of(
            root,
            Ok(entries),
        ) == Err::<Map<Seq<char>, Seq<char>>, ChipFault>(
            ChipFault::ReadName {
                path: entries@[k]->Ok_0.path@,
                source: entries@[k]->Ok_0.name->Unreadable_0@,
            },
        ),
{
    let all = entries@;
    lemma_scan_goes_on(root, all, k);
    if k == all.len() {
        assert(all.take(k) =~= all);
    } else if ends_a_scan(all[k]) {
        assert(all.take(k + 1).drop_last() =~= all.take(k));
        assert(all.take(k + 1).last() == all[k]);
        lemma_scan_error_stays(root, all, k + 1);
    }
}

/// A scan that succeeds knows a name exactly if some directory bears it, and gives the
/// path of the last directory that does.
pub proof fn scan_knows_the_last_directory_of_each_name(
    root: Seq<char>,
    entries: Vec<Result<HwmonEntry, String>>,
    name: Seq<char>,
    i: int,
)
    requires
        listing_of(root, Ok(entries)) is Ok,
    ensures
        listing_of(root, Ok(entries))->Ok_0.dom().contains(name) <==> exists|j: int|
            0 <= j < entries@.len() && is_directory_of(#[trigger] entries@[j], name),
        0 <= i < entries@.len() && is_directory_of(entries@[i], name) && (forall|j: int|
            i < j < entries@.len() ==> !is_directory_of(#[trigger] entries@[j], name))
            ==> listing_of(root, Ok(entries))->Ok_0[name] == entries@[i]->Ok_0.path@,
{
    let all = entries@;
    scan_is_exact(root, all, name);
    assert forall|j: int| 0 <= j < all.len() implies (chip_name(#[trigger] all[j]) == Some(name)
        <==> is_directory_of(all[j], name)) by {}
}

/// The system's chips are listed where the kernel lists them.
pub proof fn chips_are_listed_by_the_kernel()
    ensures
        HWMON_ROOT@ == "/sys/class/hwmon"@,
{
}

/// An error means what its fields hold, and the result of a scan is the paths that it found
/// or the meaning of its error.
pub proof fn chip_errors_mean_what_they_hold(
    a: String,
    b: String,
    available: Vec<String>,
    known: IdMap<String>,
    e: ChipError,
    name: Seq<char>,
)
    ensures
        (ChipError::ReadDir { root: a, source: b })@ == (ChipFault::ReadDir {
            root: a@,
            source: b@,
        }),
        (ChipError::ReadName { path: a, source: b })@ == (ChipFault::ReadName {
            path: a@,
            source: b@,
        }),
        (ChipError::NoSelector { fan_id: a })@ == (ChipFault::NoSelector { fan_id: a@ }),
        (ChipError::HwmonPathMissing { fan_id: a, path: b })@ == (ChipFault::HwmonPathMissing {
            fan_id: a@,
            path: b@,
        }),
        (ChipError::ChipNotFound { fan_id: a, chip: b, available })@ is ChipNotFound,
        (ChipError::ChipNotFound { fan_id: a, chip: b, available })@->ChipNotFound_fan_id == a@,
        (ChipError::ChipNotFound { fan_id: a, chip: b, available })@->ChipNotFound_chip == b@,
        scan_result(Err(e)) == Err::<Map<Seq<char>, Seq<char>>, ChipFault>(e@),
        scan_result(Ok(known)) is Ok,
        scan_result(Ok(known))->Ok_0.dom().contains(name) <==> known@.dom().contains(name),
        known@.dom().contains(name) ==> scan_result(Ok(known))->Ok_0[name] == known@[name]@,
{
}

} // verus!
