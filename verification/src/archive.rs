//! Archive inspector: classifies a compressed content package by its entry
//! names (does it ship a level, a vehicle?) and summarizes it (asset names,
//! entry count, total uncompressed size) without extracting it.
//!
//! The only trusted step is reading the entry table out of the archive bytes;
//! every judgement made on that table is verified.

use vstd::prelude::*;
use vstd::string::StrSliceExecFns;

use crate::errors::CoreError;
use crate::strutil::ci_eq;
use crate::strutil::ci_eq_exec;
use crate::strutil::insert_sorted;
use crate::strutil::split_path;
use crate::strutil::split_slash;
use crate::strutil::strictly_sorted;

verus! {

/// One entry of a compressed package: its `/`-separated name and its
/// uncompressed size in bytes.
pub struct ZipEntry {
    pub name: String,
    pub size: u64,
}

impl View for ZipEntry {
    type V = (Seq<char>, u64);

    open spec fn view(&self) -> (Seq<char>, u64) {
        (self.name@, self.size)
    }
}

impl DeepView for ZipEntry {
    type V = (Seq<char>, u64);

    open spec fn deep_view(&self) -> (Seq<char>, u64) {
        self.view()
    }
}

/// The entry table (name and uncompressed size, in archive order) that the
/// package format ascribes to a sequence of bytes, or `None` where the bytes
/// do not form a readable package.  The table is a function of the bytes
/// alone.
pub uninterp spec fn zip_entry_table(data: Seq<u8>) -> Option<Seq<(Seq<char>, u64)>>;

/// Relies on `zip::ZipArchive::new`, `len` and `by_index` over an in-memory
/// reader: the entry names (`ZipFile::name`) and uncompressed sizes
/// (`ZipFile::size`) are read from the archive's central directory and depend
/// on the archive bytes alone.  Any unreadable archive or entry is reported
/// as `None`.
#[verifier::external_body]
fn read_zip_entries(data: &Vec<u8>) -> (r: Option<Vec<ZipEntry>>)
    ensures
        match r {
            Some(v) => zip_entry_table(data@) == Some(v.deep_view()),
            None => zip_entry_table(data@) == None::<Seq<(Seq<char>, u64)>>,
        },
{
    let cursor = std::io::Cursor::new(data);
    let mut archive = match zip::ZipArchive::new(cursor) {
        Ok(a) => a,
        Err(_) => return None,
    };
    let mut out = Vec::new();
    for i in 0..archive.len() {
        match archive.by_index(i) {
            Ok(f) => out.push(ZipEntry { name: f.name().to_owned(), size: f.size() }),
            Err(_) => return None,
        }
    }
    Some(out)
}

/// The first index `i >= from` such that segment `i` matches `a` or `b` and
/// is followed by at least one more segment; `-1` if there is none.
pub open spec fn first_key_seg(segs: Seq<Seq<char>>, a: Seq<char>, b: Seq<char>, from: int) -> int
    decreases segs.len() - from,
{
    if from < 0 || from >= segs.len() - 1 {
        -1
    } else if ci_eq(segs[from], a) || ci_eq(segs[from], b) {
        from
    } else {
        first_key_seg(segs, a, b, from + 1)
    }
}

/// The entry name contains a level folder followed by at least one further
/// segment (at the root or anywhere deeper).
pub open spec fn is_level_entry(name: Seq<char>) -> bool {
    first_key_seg(split_slash(name), "level"@, "levels"@, 0) >= 0
}

/// The entry name contains a vehicle folder followed by at least one further
/// segment.
pub open spec fn is_vehicle_entry(name: Seq<char>) -> bool {
    first_key_seg(split_slash(name), "vehicle"@, "vehicles"@, 0) >= 0
}

/// The asset name an entry contributes: the segment following the first
/// level (resp. vehicle) folder segment, when that segment is nonempty.
pub open spec fn asset_name(segs: Seq<Seq<char>>, a: Seq<char>, b: Seq<char>) -> Option<Seq<char>> {
    let i = first_key_seg(segs, a, b, 0);
    if i >= 0 && segs[i + 1].len() > 0 {
        Some(segs[i + 1])
    } else {
        None
    }
}

/// A table holds a level entry.
pub open spec fn table_has_level(t: Seq<(Seq<char>, u64)>) -> bool {
    exists|i: int| 0 <= i < t.len() && #[trigger] is_level_entry(t[i].0)
}

/// A table holds a vehicle entry.
pub open spec fn table_has_vehicle(t: Seq<(Seq<char>, u64)>) -> bool {
    exists|i: int| 0 <= i < t.len() && #[trigger] is_vehicle_entry(t[i].0)
}

/// The asset names the table's entries contribute for the folder patterns
/// `a`/`b`.
pub open spec fn table_asset_names(t: Seq<(Seq<char>, u64)>, a: Seq<char>, b: Seq<char>) -> Set<
    Seq<char>,
> {
    Set::new(
        |n: Seq<char>|
            exists|i: int|
                0 <= i < t.len() && #[trigger] asset_name(split_slash(t[i].0), a, b) == Some(n),
    )
}

/// The level names a table contributes.
pub open spec fn table_level_names(t: Seq<(Seq<char>, u64)>) -> Set<Seq<char>> {
    table_asset_names(t, "level"@, "levels"@)
}

/// The vehicle names a table contributes.
pub open spec fn table_vehicle_names(t: Seq<(Seq<char>, u64)>) -> Set<Seq<char>> {
    table_asset_names(t, "vehicle"@, "vehicles"@)
}

/// Extending the table by one entry extends its asset names by that entry's
/// contribution.
pub proof fn lemma_asset_names_step(t: Seq<(Seq<char>, u64)>, a: Seq<char>, b: Seq<char>, i: int)
    requires
        0 <= i < t.len(),
    ensures
        forall|n: Seq<char>|
            #[trigger] table_asset_names(t.take(i + 1), a, b).contains(n) <==> (table_asset_names(
                t.take(i),
                a,
                b,
            ).contains(n) || asset_name(split_slash(t[i].0), a, b) == Some(n)),
{
    assert forall|n: Seq<char>|
        #[trigger] table_asset_names(t.take(i + 1), a, b).contains(n) implies (table_asset_names(
        t.take(i),
        a,
        b,
    ).contains(n) || asset_name(split_slash(t[i].0), a, b) == Some(n)) by {
        let j = choose|j: int|
            0 <= j < t.take(i + 1).len() && #[trigger] asset_name(split_slash(t.take(i + 1)[j].0), a, b)
                == Some(n);
        if j < i {
            assert(asset_name(split_slash(t.take(i)[j].0), a, b) == Some(n));
        } else {
            assert(t.take(i + 1)[j] == t[i]);
        }
    }
    assert forall|n: Seq<char>|
        (table_asset_names(t.take(i), a, b).contains(n) || asset_name(split_slash(t[i].0), a, b)
            == Some(n)) implies #[trigger] table_asset_names(t.take(i + 1), a, b).contains(n) by {
        if table_asset_names(t.take(i), a, b).contains(n) {
            let j = choose|j: int|
                0 <= j < t.take(i).len() && #[trigger] asset_name(split_slash(t.take(i)[j].0), a, b)
                    == Some(n);
            assert(asset_name(split_slash(t.take(i + 1)[j].0), a, b) == Some(n));
        } else {
            assert(asset_name(split_slash(t.take(i + 1)[i].0), a, b) == Some(n));
        }
    }
}

/// Sum of the uncompressed entry sizes of a table.
pub open spec fn table_size_sum(t: Seq<(Seq<char>, u64)>) -> int
    decreases t.len(),
{
    if t.len() == 0 {
        0
    } else {
        table_size_sum(t.drop_last()) + t.last().1
    }
}

/// Scans the segments of one entry name for the first `a`/`b` folder
/// segment, returning whether one was found and the nonempty segment that
/// follows it, if any.
fn scan_segments(segs: &Vec<String>, a: &str, b: &str) -> (r: (bool, Option<String>))
    ensures
        r.0 == (first_key_seg(segs.deep_view(), a@, b@, 0) >= 0),
        match r.1 {
            Some(nm) => asset_name(segs.deep_view(), a@, b@) == Some(nm@),
            None => asset_name(segs.deep_view(), a@, b@) is None,
        },
{
    let ghost dv = segs.deep_view();
    proof {
        assert(dv.len() == segs@.len());
    }
    let m = segs.len();
    let mut i: usize = 0;
    loop
        invariant
            i <= m,
            m == segs.len(),
            dv == segs.deep_view(),
            dv.len() == m,
            first_key_seg(dv, a@, b@, 0) == first_key_seg(dv, a@, b@, i as int),
        ensures
            first_key_seg(dv, a@, b@, 0) == first_key_seg(dv, a@, b@, i as int),
            i + 1 < m ==> first_key_seg(dv, a@, b@, i as int) == i as int,
            i + 1 >= m ==> first_key_seg(dv, a@, b@, i as int) == -1,
        decreases m - i,
    {
        if m - i <= 1 {
            break ;
        }
        proof {
            assert(dv[i as int] == segs@[i as int]@);
        }
        if ci_eq_exec(segs[i].as_str(), a) || ci_eq_exec(segs[i].as_str(), b) {
            break ;
        }
        i = i + 1;
    }
    if m - i > 1 {
        proof {
            assert(dv[i + 1] == segs@[i + 1]@);
        }
        let next = &segs[i + 1];
        if next.as_str().unicode_len() > 0 {
            let r = next.clone();
            return (true, Some(r));
        }
        return (true, None);
    }
    (false, None)
}

/// Classifies a vector of package entries: does any entry name a level, does
/// any name a vehicle?  The scan short-circuits once both flags hold.
pub fn classify_entries(entries: &Vec<ZipEntry>) -> (r: (bool, bool))
    ensures
        r.0 == table_has_level(entries.deep_view()),
        r.1 == table_has_vehicle(entries.deep_view()),
{
    let ghost t = entries.deep_view();
    proof {
        assert(t.len() == entries@.len());
    }
    let n = entries.len();
    let mut has_level = false;
    let mut has_vehicle = false;
    let mut i: usize = 0;
    loop
        invariant
            i <= n,
            n == entries.len(),
            t == entries.deep_view(),
            t.len() == n,
            has_level == table_has_level(t.take(i as int)),
            has_vehicle == table_has_vehicle(t.take(i as int)),
        ensures
            has_level == table_has_level(t),
            has_vehicle == table_has_vehicle(t),
        decreases n - i,
    {
        if i == n {
            proof {
                assert(t.take(n as int) =~= t);
            }
            break ;
        }
        proof {
            assert(t[i as int] == entries@[i as int].deep_view());
        }
        let segs = split_path(entries[i].name.as_str());
        let (lv, _) = scan_segments(&segs, "level", "levels");
        let (vh, _) = scan_segments(&segs, "vehicle", "vehicles");
        proof {
            assert(lv == is_level_entry(t[i as int].0));
            assert(vh == is_vehicle_entry(t[i as int].0));
            assert(t.take(i + 1).drop_last() =~= t.take(i as int));
            assert(t.take(i + 1).last() == t[i as int]);
            assert forall|j: int| 0 <= j < i + 1 implies t.take(i + 1)[j] == t[j] by {}
            if lv {
                assert(is_level_entry(t.take(i + 1)[i as int].0));
            }
            if has_level || lv {
                assert(table_has_level(t.take(i + 1)));
            } else {
                assert(!table_has_level(t.take(i + 1))) by {
                    if table_has_level(t.take(i + 1)) {
                        let j = choose|j: int|
                            0 <= j < t.take(i + 1).len() && #[trigger] is_level_entry(t.take(i + 1)[j].0);
                        if j < i {
                            assert(is_level_entry(t.take(i as int)[j].0));
                        }
                    }
                }
            }
            if vh {
                assert(is_vehicle_entry(t.take(i + 1)[i as int].0));
            }
            if has_vehicle || vh {
                assert(table_has_vehicle(t.take(i + 1)));
            } else {
                assert(!table_has_vehicle(t.take(i + 1))) by {
                    if table_has_vehicle(t.take(i + 1)) {
                        let j = choose|j: int|
                            0 <= j < t.take(i + 1).len() && #[trigger] is_vehicle_entry(t.take(i + 1)[j].0);
                        if j < i {
                            assert(is_vehicle_entry(t.take(i as int)[j].0));
                        }
                    }
                }
            }
        }
        has_level = has_level || lv;
        has_vehicle = has_vehicle || vh;
        i = i + 1;
        if has_level && has_vehicle {
            proof {
                let wl = choose|j: int|
                    0 <= j < t.take(i as int).len() && #[trigger] is_level_entry(t.take(i as int)[j].0);
                assert(is_level_entry(t[wl].0));
                let wv = choose|j: int|
                    0 <= j < t.take(i as int).len() && #[trigger] is_vehicle_entry(t.take(i as int)[j].0);
                assert(is_vehicle_entry(t[wv].0));
            }
            break ;
        }
    }
    (has_level, has_vehicle)
}

/// Classifies a compressed content package from its bytes.  An unreadable
/// package degrades to `(false, false)` rather than failing.
pub fn check_zip_content_type(data: &Vec<u8>) -> (r: (bool, bool))
    ensures
        match zip_entry_table(data@) {
            Some(t) => r == (table_has_level(t), table_has_vehicle(t)),
            None => r == (false, false),
        },
{
    match read_zip_entries(data) {
        Some(entries) => classify_entries(&entries),
        None => (false, false),
    }
}

/// Summary of a compressed content package: classification flags, the
/// deduplicated sorted asset names, and totals over all entries.
#[derive(Debug, Clone)]
pub struct ModDetailInfo {
    pub has_levels: bool,
    pub has_vehicles: bool,
    pub level_names: Vec<String>,
    pub vehicle_names: Vec<String>,
    pub total_files: usize,
    pub total_size: u64,
}

/// The sum of a table's entry sizes is nonnegative.
pub proof fn lemma_table_size_sum_nonneg(t: Seq<(Seq<char>, u64)>)
    ensures
        table_size_sum(t) >= 0,
    decreases t.len(),
{
    if t.len() > 0 {
        lemma_table_size_sum_nonneg(t.drop_last());
    }
}

/// Summarizes a vector of package entries: classification flags, sorted
/// deduplicated level and vehicle names, the entry count, and the total
/// uncompressed size (saturating at the largest representable size).
pub fn summarize_entries(entries: &Vec<ZipEntry>) -> (r: ModDetailInfo)
    ensures
        r.has_levels == table_has_level(entries.deep_view()),
        r.has_vehicles == table_has_vehicle(entries.deep_view()),
        strictly_sorted(r.level_names.deep_view()),
        strictly_sorted(r.vehicle_names.deep_view()),
        forall|n: Seq<char>|
            #[trigger] r.level_names.deep_view().contains(n) <==> table_level_names(
                entries.deep_view(),
            ).contains(n),
        forall|n: Seq<char>|
            #[trigger] r.vehicle_names.deep_view().contains(n) <==> table_vehicle_names(
                entries.deep_view(),
            ).contains(n),
        r.total_files == entries.deep_view().len(),
        r.total_size as int == if table_size_sum(entries.deep_view()) <= u64::MAX as int {
            table_size_sum(entries.deep_view())
        } else {
            u64::MAX as int
        },
{
    let ghost t = entries.deep_view();
    proof {
        assert(t.len() == entries@.len());
    }
    let n = entries.len();
    let mut has_levels = false;
    let mut has_vehicles = false;
    let mut level_names: Vec<String> = Vec::new();
    let mut vehicle_names: Vec<String> = Vec::new();
    let mut total_size: u64 = 0;
    let mut i: usize = 0;
    proof {
        assert(t.take(0) =~= Seq::<(Seq<char>, u64)>::empty());
        assert(level_names.deep_view() =~= Seq::<Seq<char>>::empty());
        assert(vehicle_names.deep_view() =~= Seq::<Seq<char>>::empty());
    }
    while i < n
        invariant
            i <= n,
            n == entries.len(),
            t == entries.deep_view(),
            t.len() == n,
            has_levels == table_has_level(t.take(i as int)),
            has_vehicles == table_has_vehicle(t.take(i as int)),
            strictly_sorted(level_names.deep_view()),
            strictly_sorted(vehicle_names.deep_view()),
            forall|nm: Seq<char>|
                #[trigger] level_names.deep_view().contains(nm) <==> table_level_names(
                    t.take(i as int),
                ).contains(nm),
            forall|nm: Seq<char>|
                #[trigger] vehicle_names.deep_view().contains(nm) <==> table_vehicle_names(
                    t.take(i as int),
                ).contains(nm),
            total_size as int == if table_size_sum(t.take(i as int)) <= u64::MAX as int {
                table_size_sum(t.take(i as int))
            } else {
                u64::MAX as int
            },
        decreases n - i,
    {
        proof {
            assert(t[i as int] == entries@[i as int].deep_view());
            assert(t.take(i + 1).drop_last() =~= t.take(i as int));
            assert(t.take(i + 1).last() == t[i as int]);
        }
        let entry = &entries[i];
        let segs = split_path(entry.name.as_str());
        let (lv, lnm) = scan_segments(&segs, "level", "levels");
        let (vh, vnm) = scan_segments(&segs, "vehicle", "vehicles");
        proof {
            assert(lv == is_level_entry(t[i as int].0));
            assert(vh == is_vehicle_entry(t[i as int].0));
            assert forall|j: int| 0 <= j < i + 1 implies t.take(i + 1)[j] == t[j] by {}
            if lv {
                assert(is_level_entry(t.take(i + 1)[i as int].0));
                assert(table_has_level(t.take(i + 1)));
            } else if has_levels {
                let j = choose|j: int|
                    0 <= j < t.take(i as int).len() && #[trigger] is_level_entry(
                        t.take(i as int)[j].0,
                    );
                assert(is_level_entry(t.take(i + 1)[j].0));
                assert(table_has_level(t.take(i + 1)));
            } else {
                if table_has_level(t.take(i + 1)) {
                    let j = choose|j: int|
                        0 <= j < t.take(i + 1).len() && #[trigger] is_level_entry(
                            t.take(i + 1)[j].0,
                        );
                    if j < i {
                        assert(is_level_entry(t.take(i as int)[j].0));
                    }
                    assert(false);
                }
            }
            if vh {
                assert(is_vehicle_entry(t.take(i + 1)[i as int].0));
                assert(table_has_vehicle(t.take(i + 1)));
            } else if has_vehicles {
                let j = choose|j: int|
                    0 <= j < t.take(i as int).len() && #[trigger] is_vehicle_entry(
                        t.take(i as int)[j].0,
                    );
                assert(is_vehicle_entry(t.take(i + 1)[j].0));
                assert(table_has_vehicle(t.take(i + 1)));
            } else {
                if table_has_vehicle(t.take(i + 1)) {
                    let j = choose|j: int|
                        0 <= j < t.take(i + 1).len() && #[trigger] is_vehicle_entry(
                            t.take(i + 1)[j].0,
                        );
                    if j < i {
                        assert(is_vehicle_entry(t.take(i as int)[j].0));
                    }
                    assert(false);
                }
            }
            lemma_asset_names_step(t, "level"@, "levels"@, i as int);
            lemma_asset_names_step(t, "vehicle"@, "vehicles"@, i as int);
        }
        has_levels = has_levels || lv;
        has_vehicles = has_vehicles || vh;
        match lnm {
            Some(nm) => {
                proof {
                    assert(asset_name(split_slash(t[i as int].0), "level"@, "levels"@) == Some(
                        nm@,
                    ));
                }
                insert_sorted(&mut level_names, nm);
            },
            None => {
                proof {
                    assert(asset_name(split_slash(t[i as int].0), "level"@, "levels"@) is None);
                }
            },
        }
        match vnm {
            Some(nm) => {
                proof {
                    assert(asset_name(split_slash(t[i as int].0), "vehicle"@, "vehicles"@) == Some(
                        nm@,
                    ));
                }
                insert_sorted(&mut vehicle_names, nm);
            },
            None => {
                proof {
                    assert(asset_name(split_slash(t[i as int].0), "vehicle"@, "vehicles"@) is None);
                }
            },
        }
        let sz = entry.size;
        proof {
            assert(table_size_sum(t.take(i + 1)) == table_size_sum(t.take(i as int))
                + t[i as int].1);
            lemma_table_size_sum_nonneg(t.take(i as int));
        }
        if total_size <= u64::MAX - sz {
            total_size = total_size + sz;
        } else {
            total_size = u64::MAX;
        }
        i = i + 1;
    }
    proof {
        assert(t.take(n as int) =~= t);
    }
    ModDetailInfo {
        has_levels,
        has_vehicles,
        level_names,
        vehicle_names,
        total_files: n,
        total_size,
    }
}

/// Summarizes a compressed content package from its bytes.  Reports
/// `UnreadableArchive` exactly when the bytes do not form a readable
/// package.
pub fn get_mod_details(data: &Vec<u8>) -> (r: Result<ModDetailInfo, CoreError>)
    ensures
        match zip_entry_table(data@) {
            Some(t) => {
                &&& r is Ok
                &&& r->Ok_0.has_levels == table_has_level(t)
                &&& r->Ok_0.has_vehicles == table_has_vehicle(t)
                &&& strictly_sorted(r->Ok_0.level_names.deep_view())
                &&& strictly_sorted(r->Ok_0.vehicle_names.deep_view())
                &&& forall|n: Seq<char>|
                    #[trigger] r->Ok_0.level_names.deep_view().contains(n) <==> table_level_names(
                        t,
                    ).contains(n)
                &&& forall|n: Seq<char>|
                    #[trigger] r->Ok_0.vehicle_names.deep_view().contains(n)
                        <==> table_vehicle_names(t).contains(n)
                &&& r->Ok_0.total_files == t.len()
                &&& r->Ok_0.total_size as int == if table_size_sum(t) <= u64::MAX as int {
                    table_size_sum(t)
                } else {
                    u64::MAX as int
                }
            },
            None => r == Err::<ModDetailInfo, CoreError>(CoreError::UnreadableArchive),
        },
{
    match read_zip_entries(data) {
        Some(entries) => Ok(summarize_entries(&entries)),
        None => Err(CoreError::UnreadableArchive),
    }
}

} // verus!
