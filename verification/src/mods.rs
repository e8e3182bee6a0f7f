//! Mod repository: inventories content units kept in two parallel directory
//! trees (an enabled root and a disabled root), and computes the move, add
//! and root paths that the surrounding application carries out on disk.
//!
//! Paths are forward-slash normalized strings.  The library never touches
//! the filesystem: callers list the root directories, read package bytes,
//! and execute the returned plans.

use vstd::prelude::*;
use vstd::multiset::Multiset;
use vstd::string::StringExecFns;

use crate::archive::check_zip_content_type;
use crate::archive::table_has_level;
use crate::archive::table_has_vehicle;
use crate::archive::zip_entry_table;
use crate::errors::CoreError;
use crate::strutil::ci_eq;
use crate::strutil::ci_eq_exec;
use crate::strutil::has_zip_extension;
use crate::strutil::join_path;
use crate::strutil::joined;
use crate::strutil::last_index_of;
use crate::strutil::str_le;
use crate::strutil::zip_ext;

verus! {

broadcast use vstd::seq_lib::group_to_multiset_ensures, vstd::multiset::group_multiset_axioms;

/// The two content classifications: server units are directories, client
/// units are single compressed-package files.
#[derive(Clone, Copy, Debug, PartialEq, Eq, Structural)]
pub enum ModClass {
    Server,
    Client,
}

/// One directory-listing entry, as the caller observed it: the entry's name
/// and whether it is a directory.
pub struct DirEntry {
    pub name: String,
    pub is_dir: bool,
}

impl View for DirEntry {
    type V = (Seq<char>, bool);

    open spec fn view(&self) -> (Seq<char>, bool) {
        (self.name@, self.is_dir)
    }
}

impl DeepView for DirEntry {
    type V = (Seq<char>, bool);

    open spec fn deep_view(&self) -> (Seq<char>, bool) {
        self.view()
    }
}

/// One client-root listing entry: the entry's name, whether it is a plain
/// file, and the file's bytes (used to classify qualifying packages).
pub struct ClientFileEntry {
    pub name: String,
    pub is_file: bool,
    pub data: Vec<u8>,
}

impl View for ClientFileEntry {
    type V = (Seq<char>, bool, Seq<u8>);

    open spec fn view(&self) -> (Seq<char>, bool, Seq<u8>) {
        (self.name@, self.is_file, self.data@)
    }
}

impl DeepView for ClientFileEntry {
    type V = (Seq<char>, bool, Seq<u8>);

    open spec fn deep_view(&self) -> (Seq<char>, bool, Seq<u8>) {
        self.view()
    }
}

/// A content unit: its identity (relative path), its backing location on
/// disk, whether it rests under the enabled root, and for client units the
/// derived archive classification flags.
#[derive(Debug, Clone)]
pub struct ModEntry {
    pub relative_path: String,
    pub full_path: String,
    pub enabled: bool,
    pub is_level: bool,
    pub is_vehicle: bool,
}

/// Mathematical model of a `ModEntry`.
pub ghost struct ModEntryModel {
    pub relative_path: Seq<char>,
    pub full_path: Seq<char>,
    pub enabled: bool,
    pub is_level: bool,
    pub is_vehicle: bool,
}

impl View for ModEntry {
    type V = ModEntryModel;

    open spec fn view(&self) -> ModEntryModel {
        ModEntryModel {
            relative_path: self.relative_path@,
            full_path: self.full_path@,
            enabled: self.enabled,
            is_level: self.is_level,
            is_vehicle: self.is_vehicle,
        }
    }
}

impl DeepView for ModEntry {
    type V = ModEntryModel;

    open spec fn deep_view(&self) -> ModEntryModel {
        self.view()
    }
}

/// The subdirectory name a classification uses under either root.
pub open spec fn class_dir(class: ModClass) -> Seq<char> {
    match class {
        ModClass::Server => "Server"@,
        ModClass::Client => "Client"@,
    }
}

/// The enabled root of a classification:
/// `<serverPath>/<resourceFolder>/<Server|Client>`.
pub open spec fn enabled_root(sp: Seq<char>, rf: Seq<char>, class: ModClass) -> Seq<char> {
    joined(joined(sp, rf), class_dir(class))
}

/// The disabled root of a classification:
/// `<serverPath>/<resourceFolder>_disabled/<Server|Client>`.
pub open spec fn disabled_root(sp: Seq<char>, rf: Seq<char>, class: ModClass) -> Seq<char> {
    joined(joined(sp, rf + "_disabled"@), class_dir(class))
}

fn class_dir_exec(class: ModClass) -> (r: &'static str)
    ensures
        r@ == class_dir(class),
{
    match class {
        ModClass::Server => "Server",
        ModClass::Client => "Client",
    }
}

/// Builds the enabled or disabled root path of a classification, for the
/// caller to list or create.
pub fn resource_root(server_path: &str, resource_folder: &str, class: ModClass, enabled: bool) -> (r:
    String)
    ensures
        enabled ==> r@ == enabled_root(server_path@, resource_folder@, class),
        !enabled ==> r@ == disabled_root(server_path@, resource_folder@, class),
{
    if enabled {
        let base = join_path(server_path, resource_folder);
        join_path(base.as_str(), class_dir_exec(class))
    } else {
        let mut folder = resource_folder.to_owned();
        folder.append("_disabled");
        let base = join_path(server_path, folder.as_str());
        join_path(base.as_str(), class_dir_exec(class))
    }
}

/// The backing path a unit moves from when switching to `enable`.
pub open spec fn move_source(
    sp: Seq<char>,
    rf: Seq<char>,
    class: ModClass,
    rel: Seq<char>,
    enable: bool,
) -> Seq<char> {
    if enable {
        joined(disabled_root(sp, rf, class), rel)
    } else {
        joined(enabled_root(sp, rf, class), rel)
    }
}

/// The backing path a unit moves to when switching to `enable`.
pub open spec fn move_target(
    sp: Seq<char>,
    rf: Seq<char>,
    class: ModClass,
    rel: Seq<char>,
    enable: bool,
) -> Seq<char> {
    if enable {
        joined(enabled_root(sp, rf, class), rel)
    } else {
        joined(disabled_root(sp, rf, class), rel)
    }
}

/// The characters of `p` before its last `/`, or empty if it has none.
pub open spec fn parent_dir(p: Seq<char>) -> Seq<char> {
    if last_index_of(p, '/') < 0 {
        Seq::<char>::empty()
    } else {
        p.take(last_index_of(p, '/'))
    }
}

/// A move the caller is to carry out: rename `source` to `target`, creating
/// `target_parent` (and its ancestors) first.
pub struct MovePlan {
    pub source: String,
    pub target: String,
    pub target_parent: String,
}

/// What `set_enabled` and its four classification-specific forms promise.
pub open spec fn set_enabled_post(
    r: Result<MovePlan, CoreError>,
    sp: Seq<char>,
    rf: Seq<char>,
    class: ModClass,
    rel: Seq<char>,
    enable: bool,
    source_exists: bool,
    target_exists: bool,
) -> bool {
    if source_exists {
        &&& r is Ok
        &&& r->Ok_0.source@ == move_source(sp, rf, class, rel, enable)
        &&& r->Ok_0.target@ == move_target(sp, rf, class, rel, enable)
        &&& r->Ok_0.target_parent@ == parent_dir(move_target(sp, rf, class, rel, enable))
    } else if target_exists {
        r == Err::<MovePlan, CoreError>(CoreError::AlreadyInTargetState)
    } else {
        r == Err::<MovePlan, CoreError>(CoreError::NotFound)
    }
}

/// Computes the move that switches a unit's enablement, given whether its
/// backing path currently exists under the source root and under the target
/// root.  A unit already resting under the target root is reported as
/// `AlreadyInTargetState`; one found under neither root as `NotFound`.
pub fn set_enabled(
    server_path: &str,
    resource_folder: &str,
    class: ModClass,
    relative_path: &str,
    enable: bool,
    source_exists: bool,
    target_exists: bool,
) -> (r: Result<MovePlan, CoreError>)
    ensures
        set_enabled_post(
            r,
            server_path@,
            resource_folder@,
            class,
            relative_path@,
            enable,
            source_exists,
            target_exists,
        ),
{
    if !source_exists {
        if target_exists {
            return Err(CoreError::AlreadyInTargetState);
        }
        return Err(CoreError::NotFound);
    }
    let source_root = resource_root(server_path, resource_folder, class, !enable);
    let target_root = resource_root(server_path, resource_folder, class, enable);
    let source = join_path(source_root.as_str(), relative_path);
    let target = join_path(target_root.as_str(), relative_path);
    proof {
        crate::strutil::lemma_last_index_of(target@, '/');
        lemma_joined_parent(target_root@, relative_path@);
    }
    let target_parent = parent_dir_exec(target.as_str());
    Ok(MovePlan { source, target, target_parent })
}

/// Extracts `parent_dir` as an owned string.
fn parent_dir_exec(p: &str) -> (r: String)
    ensures
        r@ == parent_dir(p@),
{
    proof {
        crate::strutil::lemma_last_index_of(p@, '/');
    }
    match crate::strutil::last_index_of_exec(p, '/') {
        None => String::new(),
        Some(k) => {
            let r = p.substring_char(0, k).to_owned();
            proof {
                assert(r@ =~= p@.take(k as int));
            }
            r
        },
    }
}

/// In `joined(root, rel)` where `rel` has no `/`, the parent directory is
/// `root` itself; in general the last `/` is never before `root.len()`.
proof fn lemma_joined_parent(root: Seq<char>, rel: Seq<char>)
    ensures
        last_index_of(rel, '/') < 0 ==> parent_dir(joined(root, rel)) == root,
{
    let p = joined(root, rel);
    crate::strutil::lemma_last_index_of(rel, '/');
    if last_index_of(rel, '/') < 0 {
        assert(p[root.len() as int] == '/');
        assert(forall|j: int| root.len() < j < p.len() ==> p[j] == rel[j - root.len() - 1]);
        assert(forall|j: int| root.len() < j < p.len() ==> p[j] != '/');
        crate::strutil::lemma_last_index_of(p, '/');
        assert(last_index_of(p, '/') == root.len());
        assert(p.take(root.len() as int) =~= root);
    }
}

/// Order on units by relative path, non-strict (duplicates allowed).
pub open spec fn sorted_by_path(s: Seq<ModEntryModel>) -> bool {
    forall|i: int, j: int|
        0 <= i < j < s.len() ==> str_le(s[i].relative_path, s[j].relative_path)
}

/// Sorts units by relative path, case-sensitive code-point order.
pub fn sort_mods(mods: &mut Vec<ModEntry>)
    ensures
        sorted_by_path(final(mods).deep_view()),
        final(mods).deep_view().to_multiset() == old(mods).deep_view().to_multiset(),
{
    let ghost orig = old(mods).deep_view();
    let mut result: Vec<ModEntry> = Vec::new();
    proof {
        assert(result.deep_view() =~= Seq::<ModEntryModel>::empty());
        assert(result.deep_view().to_multiset().add(mods.deep_view().to_multiset())
            =~= orig.to_multiset());
    }
    loop
        invariant
            orig == old(mods).deep_view(),
            sorted_by_path(result.deep_view()),
            result.deep_view().to_multiset().add(mods.deep_view().to_multiset()) == orig.to_multiset(),
            forall|i: int, k: int|
                0 <= i < result.deep_view().len() && 0 <= k < mods.deep_view().len() ==> str_le(
                    result.deep_view()[i].relative_path,
                    mods.deep_view()[k].relative_path,
                ),
        ensures
            mods.len() == 0,
            sorted_by_path(result.deep_view()),
            result.deep_view().to_multiset().add(mods.deep_view().to_multiset()) == orig.to_multiset(),
        decreases mods.len(),
    {
        let n = mods.len();
        if n == 0 {
            break ;
        }
        let ghost w = mods.deep_view();
        proof {
            assert(w.len() == mods@.len());
        }
        let mut m: usize = 0;
        let mut j: usize = 1;
        loop
            invariant
                0 <= m < j <= n,
                n == mods.len(),
                w == mods.deep_view(),
                w.len() == n,
                forall|k: int| 0 <= k < j ==> str_le(w[m as int].relative_path, w[k].relative_path),
            ensures
                m < n,
                w == mods.deep_view(),
                forall|k: int| 0 <= k < n ==> str_le(w[m as int].relative_path, w[k].relative_path),
            decreases n - j,
        {
            if j == n {
                break ;
            }
            proof {
                assert(w[j as int] == mods@[j as int].deep_view());
                assert(w[m as int] == mods@[m as int].deep_view());
            }
            if crate::strutil::str_lt_exec(
                mods[j].relative_path.as_str(),
                mods[m].relative_path.as_str(),
            ) {
                proof {
                    assert forall|k: int| 0 <= k < j implies str_le(
                        w[j as int].relative_path,
                        w[k].relative_path,
                    ) by {
                        crate::strutil::lemma_str_le_transitive(
                            w[j as int].relative_path,
                            w[m as int].relative_path,
                            w[k].relative_path,
                        );
                    }
                }
                m = j;
            } else {
                proof {
                    crate::strutil::lemma_str_lt_connex(
                        w[m as int].relative_path,
                        w[j as int].relative_path,
                    );
                }
            }
            j = j + 1;
        }
        let ghost res0 = result.deep_view();
        let x = mods.remove(m);
        result.push(x);
        proof {
            assert(x@ == w[m as int]);
            assert(mods.deep_view() =~= w.remove(m as int));
            assert(result.deep_view() =~= res0.push(w[m as int]));
            assert(w.remove(m as int).to_multiset() =~= w.to_multiset().remove(w[m as int]));
            assert(res0.push(w[m as int]).to_multiset() =~= res0.to_multiset().insert(w[m as int]));
            assert(w.contains(w[m as int]));
            assert(w.to_multiset().count(w[m as int]) > 0);
            assert(result.deep_view().to_multiset().add(mods.deep_view().to_multiset())
                =~= orig.to_multiset());
            assert forall|i: int, jj: int|
                0 <= i < jj < result.deep_view().len() implies str_le(
                result.deep_view()[i].relative_path,
                result.deep_view()[jj].relative_path,
            ) by {
                if jj < res0.len() {
                    assert(str_le(res0[i].relative_path, res0[jj].relative_path));
                } else {
                    assert(str_le(res0[i].relative_path, w[m as int].relative_path));
                }
            }
            assert forall|i: int, k: int|
                0 <= i < result.deep_view().len() && 0 <= k < mods.deep_view().len() implies str_le(
                result.deep_view()[i].relative_path,
                mods.deep_view()[k].relative_path,
            ) by {
                let wk = w.remove(m as int)[k];
                if k < m {
                    assert(w.remove(m as int)[k] == w[k]);
                } else {
                    assert(w.remove(m as int)[k] == w[k + 1]);
                }
                if i < res0.len() {
                    assert(str_le(res0[i].relative_path, wk.relative_path));
                } else {
                    assert(result.deep_view()[i] == w[m as int]);
                }
            }
        }
    }
    proof {
        assert(mods.deep_view() =~= Seq::<ModEntryModel>::empty());
        assert(mods.deep_view().to_multiset() =~= Multiset::<ModEntryModel>::empty());
        assert(result.deep_view().to_multiset().add(Multiset::<ModEntryModel>::empty())
            =~= result.deep_view().to_multiset());
    }
    *mods = result;
}

/// The server units a directory listing contributes under `root`: one unit
/// per directory entry, in listing order, unclassified.
pub open spec fn server_units(list: Seq<(Seq<char>, bool)>, root: Seq<char>, enabled: bool) -> Seq<
    ModEntryModel,
>
    decreases list.len(),
{
    if list.len() == 0 {
        Seq::<ModEntryModel>::empty()
    } else {
        server_units(list.drop_last(), root, enabled) + if list.last().1 {
            seq![
                ModEntryModel {
                    relative_path: list.last().0,
                    full_path: joined(root, list.last().0),
                    enabled: enabled,
                    is_level: false,
                    is_vehicle: false,
                },
            ]
        } else {
            Seq::<ModEntryModel>::empty()
        }
    }
}

/// A client-root listing entry qualifies as a unit: a plain file with the
/// compressed-package extension, other than the reserved metadata file name.
pub open spec fn client_qualifies(name: Seq<char>, is_file: bool) -> bool {
    is_file && zip_ext(name) && !ci_eq(name, "mods.json"@)
}

/// The classification flags a package's bytes yield: unreadable bytes
/// degrade to `(false, false)`.
pub open spec fn client_flags(data: Seq<u8>) -> (bool, bool) {
    match zip_entry_table(data) {
        Some(t) => (table_has_level(t), table_has_vehicle(t)),
        None => (false, false),
    }
}

/// The client units a directory listing contributes under `root`: one unit
/// per qualifying file, in listing order, classified from its bytes.
pub open spec fn client_units(
    list: Seq<(Seq<char>, bool, Seq<u8>)>,
    root: Seq<char>,
    enabled: bool,
) -> Seq<ModEntryModel>
    decreases list.len(),
{
    if list.len() == 0 {
        Seq::<ModEntryModel>::empty()
    } else {
        client_units(list.drop_last(), root, enabled) + if client_qualifies(
            list.last().0,
            list.last().1,
        ) {
            seq![
                ModEntryModel {
                    relative_path: list.last().0,
                    full_path: joined(root, list.last().0),
                    enabled: enabled,
                    is_level: client_flags(list.last().2).0,
                    is_vehicle: client_flags(list.last().2).1,
                },
            ]
        } else {
            Seq::<ModEntryModel>::empty()
        }
    }
}

/// Appends the server units of one listing to `mods`.
fn collect_server_units(mods: &mut Vec<ModEntry>, entries: &Vec<DirEntry>, root: &str, enabled: bool)
    ensures
        final(mods).deep_view() == old(mods).deep_view() + server_units(
            entries.deep_view(),
            root@,
            enabled,
        ),
{
    let ghost base = old(mods).deep_view();
    let ghost l = entries.deep_view();
    proof {
        assert(l.len() == entries@.len());
        assert(l.take(0) =~= Seq::<(Seq<char>, bool)>::empty());
        assert(base + server_units(l.take(0), root@, enabled) =~= base);
    }
    let n = entries.len();
    let mut i: usize = 0;
    while i < n
        invariant
            i <= n,
            n == entries.len(),
            base == old(mods).deep_view(),
            l == entries.deep_view(),
            l.len() == n,
            mods.deep_view() == base + server_units(l.take(i as int), root@, enabled),
        decreases n - i,
    {
        proof {
            assert(l[i as int] == entries@[i as int].deep_view());
            assert(l.take(i + 1).drop_last() =~= l.take(i as int));
            assert(l.take(i + 1).last() == l[i as int]);
        }
        let ghost before = mods.deep_view();
        let entry = &entries[i];
        if entry.is_dir {
            let name = entry.name.clone();
            let full = join_path(root, name.as_str());
            mods.push(ModEntry {
                relative_path: name,
                full_path: full,
                enabled,
                is_level: false,
                is_vehicle: false,
            });
            proof {
                assert(mods.deep_view() =~= before.push(
                    ModEntryModel {
                        relative_path: l[i as int].0,
                        full_path: joined(root@, l[i as int].0),
                        enabled: enabled,
                        is_level: false,
                        is_vehicle: false,
                    },
                ));
                assert(mods.deep_view() =~= base + server_units(l.take(i + 1), root@, enabled));
            }
        } else {
            proof {
                assert(server_units(l.take(i + 1), root@, enabled) =~= server_units(
                    l.take(i as int),
                    root@,
                    enabled,
                ));
            }
        }
        i = i + 1;
    }
    proof {
        assert(l.take(n as int) =~= l);
    }
}

/// Appends the client units of one listing to `mods`, classifying each
/// qualifying package from its bytes.
fn collect_client_units(
    mods: &mut Vec<ModEntry>,
    entries: &Vec<ClientFileEntry>,
    root: &str,
    enabled: bool,
)
    ensures
        final(mods).deep_view() == old(mods).deep_view() + client_units(
            entries.deep_view(),
            root@,
            enabled,
        ),
{
    let ghost base = old(mods).deep_view();
    let ghost l = entries.deep_view();
    proof {
        assert(l.len() == entries@.len());
        assert(l.take(0) =~= Seq::<(Seq<char>, bool, Seq<u8>)>::empty());
        assert(base + client_units(l.take(0), root@, enabled) =~= base);
    }
    let n = entries.len();
    let mut i: usize = 0;
    while i < n
        invariant
            i <= n,
            n == entries.len(),
            base == old(mods).deep_view(),
            l == entries.deep_view(),
            l.len() == n,
            mods.deep_view() == base + client_units(l.take(i as int), root@, enabled),
        decreases n - i,
    {
        proof {
            assert(l[i as int] == entries@[i as int].deep_view());
            assert(l.take(i + 1).drop_last() =~= l.take(i as int));
            assert(l.take(i + 1).last() == l[i as int]);
        }
        let ghost before = mods.deep_view();
        let entry = &entries[i];
        let qualifies = entry.is_file && has_zip_extension(entry.name.as_str()) && !ci_eq_exec(
            entry.name.as_str(),
            "mods.json",
        );
        if qualifies {
            let (is_level, is_vehicle) = check_zip_content_type(&entry.data);
            proof {
                assert((is_level, is_vehicle) == client_flags(l[i as int].2));
            }
            let name = entry.name.clone();
            let full = join_path(root, name.as_str());
            mods.push(ModEntry { relative_path: name, full_path: full, enabled, is_level, is_vehicle });
            proof {
                assert(mods.deep_view() =~= before.push(
                    ModEntryModel {
                        relative_path: l[i as int].0,
                        full_path: joined(root@, l[i as int].0),
                        enabled: enabled,
                        is_level: client_flags(l[i as int].2).0,
                        is_vehicle: client_flags(l[i as int].2).1,
                    },
                ));
                assert(mods.deep_view() =~= base + client_units(l.take(i + 1), root@, enabled));
            }
        } else {
            proof {
                assert(client_units(l.take(i + 1), root@, enabled) =~= client_units(
                    l.take(i as int),
                    root@,
                    enabled,
                ));
            }
        }
        i = i + 1;
    }
    proof {
        assert(l.take(n as int) =~= l);
    }
}

/// Scans the server units of both roots from the given directory listings
/// and returns them sorted by relative path.  A missing root is represented
/// by an empty listing.
pub fn scan_server_mods(
    server_path: &str,
    resource_folder: &str,
    enabled_entries: &Vec<DirEntry>,
    disabled_entries: &Vec<DirEntry>,
) -> (r: Vec<ModEntry>)
    ensures
        sorted_by_path(r.deep_view()),
        r.deep_view().to_multiset() == (server_units(
            enabled_entries.deep_view(),
            enabled_root(server_path@, resource_folder@, ModClass::Server),
            true,
        ) + server_units(
            disabled_entries.deep_view(),
            disabled_root(server_path@, resource_folder@, ModClass::Server),
            false,
        )).to_multiset(),
{
    let root_en = resource_root(server_path, resource_folder, ModClass::Server, true);
    let root_dis = resource_root(server_path, resource_folder, ModClass::Server, false);
    let mut mods: Vec<ModEntry> = Vec::new();
    proof {
        assert(mods.deep_view() =~= Seq::<ModEntryModel>::empty());
    }
    collect_server_units(&mut mods, enabled_entries, root_en.as_str(), true);
    collect_server_units(&mut mods, disabled_entries, root_dis.as_str(), false);
    proof {
        assert(Seq::<ModEntryModel>::empty() + server_units(
            enabled_entries.deep_view(),
            enabled_root(server_path@, resource_folder@, ModClass::Server),
            true,
        ) =~= server_units(
            enabled_entries.deep_view(),
            enabled_root(server_path@, resource_folder@, ModClass::Server),
            true,
        ));
    }
    sort_mods(&mut mods);
    mods
}

/// Scans the client units of both roots from the given file listings and
/// returns them sorted by relative path.  Only files with the
/// compressed-package extension qualify; the reserved server metadata file
/// is excluded; each qualifying package is classified from its bytes.
pub fn scan_client_mods(
    server_path: &str,
    resource_folder: &str,
    enabled_entries: &Vec<ClientFileEntry>,
    disabled_entries: &Vec<ClientFileEntry>,
) -> (r: Vec<ModEntry>)
    ensures
        sorted_by_path(r.deep_view()),
        r.deep_view().to_multiset() == (client_units(
            enabled_entries.deep_view(),
            enabled_root(server_path@, resource_folder@, ModClass::Client),
            true,
        ) + client_units(
            disabled_entries.deep_view(),
            disabled_root(server_path@, resource_folder@, ModClass::Client),
            false,
        )).to_multiset(),
{
    let root_en = resource_root(server_path, resource_folder, ModClass::Client, true);
    let root_dis = resource_root(server_path, resource_folder, ModClass::Client, false);
    let mut mods: Vec<ModEntry> = Vec::new();
    proof {
        assert(mods.deep_view() =~= Seq::<ModEntryModel>::empty());
    }
    collect_client_units(&mut mods, enabled_entries, root_en.as_str(), true);
    collect_client_units(&mut mods, disabled_entries, root_dis.as_str(), false);
    proof {
        assert(Seq::<ModEntryModel>::empty() + client_units(
            enabled_entries.deep_view(),
            enabled_root(server_path@, resource_folder@, ModClass::Client),
            true,
        ) =~= client_units(
            enabled_entries.deep_view(),
            enabled_root(server_path@, resource_folder@, ModClass::Client),
            true,
        ));
    }
    sort_mods(&mut mods);
    mods
}

/// Computes the move that disables a server unit.
pub fn disable_server_mod(
    server_path: &str,
    resource_folder: &str,
    relative_path: &str,
    source_exists: bool,
    target_exists: bool,
) -> (r: Result<MovePlan, CoreError>)
    ensures
        set_enabled_post(
            r,
            server_path@,
            resource_folder@,
            ModClass::Server,
            relative_path@,
            false,
            source_exists,
            target_exists,
        ),
{
    set_enabled(
        server_path,
        resource_folder,
        ModClass::Server,
        relative_path,
        false,
        source_exists,
        target_exists,
    )
}

/// Computes the move that enables a server unit.
pub fn enable_server_mod(
    server_path: &str,
    resource_folder: &str,
    relative_path: &str,
    source_exists: bool,
    target_exists: bool,
) -> (r: Result<MovePlan, CoreError>)
    ensures
        set_enabled_post(
            r,
            server_path@,
            resource_folder@,
            ModClass::Server,
            relative_path@,
            true,
            source_exists,
            target_exists,
        ),
{
    set_enabled(
        server_path,
        resource_folder,
        ModClass::Server,
        relative_path,
        true,
        source_exists,
        target_exists,
    )
}

/// Computes the move that disables a client unit.
pub fn disable_client_mod(
    server_path: &str,
    resource_folder: &str,
    relative_path: &str,
    source_exists: bool,
    target_exists: bool,
) -> (r: Result<MovePlan, CoreError>)
    ensures
        set_enabled_post(
            r,
            server_path@,
            resource_folder@,
            ModClass::Client,
            relative_path@,
            false,
            source_exists,
            target_exists,
        ),
{
    set_enabled(
        server_path,
        resource_folder,
        ModClass::Client,
        relative_path,
        false,
        source_exists,
        target_exists,
    )
}

/// Computes the move that enables a client unit.
pub fn enable_client_mod(
    server_path: &str,
    resource_folder: &str,
    relative_path: &str,
    source_exists: bool,
    target_exists: bool,
) -> (r: Result<MovePlan, CoreError>)
    ensures
        set_enabled_post(
            r,
            server_path@,
            resource_folder@,
            ModClass::Client,
            relative_path@,
            true,
            source_exists,
            target_exists,
        ),
{
    set_enabled(
        server_path,
        resource_folder,
        ModClass::Client,
        relative_path,
        true,
        source_exists,
        target_exists,
    )
}

/// An add the caller is to carry out: create `client_dir` (and ancestors)
/// if absent, then copy the source file to `target`.
pub struct AddPlan {
    pub client_dir: String,
    pub target: String,
}

/// Computes where an external package file is added: into the enabled
/// client root, under the file's own name.  A source whose name lacks the
/// compressed-package extension is rejected as `InvalidFormat`.
pub fn add_client_mod(server_path: &str, resource_folder: &str, source_path: &str) -> (r: Result<
    AddPlan,
    CoreError,
>)
    ensures
        zip_ext(crate::strutil::last_segment(source_path@)) ==> {
            &&& r is Ok
            &&& r->Ok_0.client_dir@ == enabled_root(
                server_path@,
                resource_folder@,
                ModClass::Client,
            )
            &&& r->Ok_0.target@ == joined(
                enabled_root(server_path@, resource_folder@, ModClass::Client),
                crate::strutil::last_segment(source_path@),
            )
        },
        !zip_ext(crate::strutil::last_segment(source_path@)) ==> r == Err::<
            AddPlan,
            CoreError,
        >(CoreError::InvalidFormat),
{
    let file_name = crate::strutil::last_segment_exec(source_path);
    if !has_zip_extension(file_name.as_str()) {
        return Err(CoreError::InvalidFormat);
    }
    let client_dir = resource_root(server_path, resource_folder, ModClass::Client, true);
    let target = join_path(client_dir.as_str(), file_name.as_str());
    Ok(AddPlan { client_dir, target })
}

/// Every unit of a server-units listing is flagged with the root it was
/// listed under, its backing path is that root joined with its relative
/// path, and it carries no archive classification.
pub proof fn lemma_server_units_placed(list: Seq<(Seq<char>, bool)>, root: Seq<char>, enabled: bool)
    ensures
        forall|m: ModEntryModel|
            #[trigger] server_units(list, root, enabled).contains(m) ==> m.enabled == enabled
                && m.full_path == joined(root, m.relative_path) && !m.is_level && !m.is_vehicle,
    decreases list.len(),
{
    if list.len() > 0 {
        lemma_server_units_placed(list.drop_last(), root, enabled);
        assert forall|m: ModEntryModel|
            #[trigger] server_units(list, root, enabled).contains(m) implies m.enabled == enabled
            && m.full_path == joined(root, m.relative_path) && !m.is_level && !m.is_vehicle by {
            let s = server_units(list, root, enabled);
            let pre = server_units(list.drop_last(), root, enabled);
            let i = choose|i: int| 0 <= i < s.len() && s[i] == m;
            if i < pre.len() {
                assert(pre.contains(m));
            }
        }
    }
}

/// Every unit of a client-units listing is flagged with the root it was
/// listed under and its backing path is that root joined with its relative
/// path.
pub proof fn lemma_client_units_placed(
    list: Seq<(Seq<char>, bool, Seq<u8>)>,
    root: Seq<char>,
    enabled: bool,
)
    ensures
        forall|m: ModEntryModel|
            #[trigger] client_units(list, root, enabled).contains(m) ==> m.enabled == enabled
                && m.full_path == joined(root, m.relative_path),
    decreases list.len(),
{
    if list.len() > 0 {
        lemma_client_units_placed(list.drop_last(), root, enabled);
        assert forall|m: ModEntryModel|
            #[trigger] client_units(list, root, enabled).contains(m) implies m.enabled == enabled
            && m.full_path == joined(root, m.relative_path) by {
            let s = client_units(list, root, enabled);
            let pre = client_units(list.drop_last(), root, enabled);
            let i = choose|i: int| 0 <= i < s.len() && s[i] == m;
            if i < pre.len() {
                assert(pre.contains(m));
            }
        }
    }
}

/// A unit's backing path under the enabled root and under the disabled root
/// always differ: the two trees never coincide.
pub proof fn lemma_backing_paths_distinct(
    sp: Seq<char>,
    rf: Seq<char>,
    class: ModClass,
    rel: Seq<char>,
)
    ensures
        joined(enabled_root(sp, rf, class), rel) != joined(disabled_root(sp, rf, class), rel),
{
    let e = joined(enabled_root(sp, rf, class), rel);
    let d = joined(disabled_root(sp, rf, class), rel);
    let k = sp.len() + 1 + rf.len();
    reveal_strlit("_disabled");
    assert(e[k as int] == '/');
    assert(d[k as int] == "_disabled"@[0]);
    assert("_disabled"@[0] == '_');
    if e == d {
        assert(e[k as int] == d[k as int]);
        assert(false);
    }
}

/// A content unit at rest is backed under exactly one of the two roots:
/// the root its `enabled` flag names, and never the other.  Together with
/// `lemma_server_units_placed` / `lemma_client_units_placed` this covers
/// every unit a scan returns.
pub proof fn lemma_unit_under_exactly_one_root(
    sp: Seq<char>,
    rf: Seq<char>,
    class: ModClass,
    m: ModEntryModel,
)
    requires
        m.enabled ==> m.full_path == joined(enabled_root(sp, rf, class), m.relative_path),
        !m.enabled ==> m.full_path == joined(disabled_root(sp, rf, class), m.relative_path),
    ensures
        (m.full_path == joined(enabled_root(sp, rf, class), m.relative_path)) <==> m.enabled,
        (m.full_path == joined(disabled_root(sp, rf, class), m.relative_path)) <==> !m.enabled,
{
    lemma_backing_paths_distinct(sp, rf, class, m.relative_path);
}

/// Every unit a server scan returns rests under exactly one of the two
/// roots: the one its `enabled` flag names, never the other, never neither.
/// The `requires` is exactly what `scan_server_mods` ensures of its result.
pub proof fn lemma_server_scan_exactly_one_root(
    sp: Seq<char>,
    rf: Seq<char>,
    class: ModClass,
    enabled_list: Seq<(Seq<char>, bool)>,
    disabled_list: Seq<(Seq<char>, bool)>,
    scanned: Seq<ModEntryModel>,
    m: ModEntryModel,
)
    requires
        scanned.to_multiset() == (server_units(enabled_list, enabled_root(sp, rf, class), true)
            + server_units(disabled_list, disabled_root(sp, rf, class), false)).to_multiset(),
        scanned.contains(m),
    ensures
        (m.full_path == joined(enabled_root(sp, rf, class), m.relative_path)) <==> m.enabled,
        (m.full_path == joined(disabled_root(sp, rf, class), m.relative_path)) <==> !m.enabled,
{
    let first = server_units(enabled_list, enabled_root(sp, rf, class), true);
    let second = server_units(disabled_list, disabled_root(sp, rf, class), false);
    let u = first + second;
    assert(scanned.to_multiset().count(m) > 0);
    assert(u.contains(m));
    let i = choose|i: int| 0 <= i < u.len() && u[i] == m;
    lemma_server_units_placed(enabled_list, enabled_root(sp, rf, class), true);
    lemma_server_units_placed(disabled_list, disabled_root(sp, rf, class), false);
    if i < first.len() {
        assert(first.contains(m));
    } else {
        assert(second[i - first.len()] == m);
        assert(second.contains(m));
    }
    lemma_unit_under_exactly_one_root(sp, rf, class, m);
}

/// Every unit a client scan returns rests under exactly one of the two
/// roots, likewise.  The `requires` is exactly what `scan_client_mods`
/// ensures of its result.
pub proof fn lemma_client_scan_exactly_one_root(
    sp: Seq<char>,
    rf: Seq<char>,
    class: ModClass,
    enabled_list: Seq<(Seq<char>, bool, Seq<u8>)>,
    disabled_list: Seq<(Seq<char>, bool, Seq<u8>)>,
    scanned: Seq<ModEntryModel>,
    m: ModEntryModel,
)
    requires
        scanned.to_multiset() == (client_units(enabled_list, enabled_root(sp, rf, class), true)
            + client_units(disabled_list, disabled_root(sp, rf, class), false)).to_multiset(),
        scanned.contains(m),
    ensures
        (m.full_path == joined(enabled_root(sp, rf, class), m.relative_path)) <==> m.enabled,
        (m.full_path == joined(disabled_root(sp, rf, class), m.relative_path)) <==> !m.enabled,
{
    let first = client_units(enabled_list, enabled_root(sp, rf, class), true);
    let second = client_units(disabled_list, disabled_root(sp, rf, class), false);
    let u = first + second;
    assert(scanned.to_multiset().count(m) > 0);
    assert(u.contains(m));
    let i = choose|i: int| 0 <= i < u.len() && u[i] == m;
    lemma_client_units_placed(enabled_list, enabled_root(sp, rf, class), true);
    lemma_client_units_placed(disabled_list, disabled_root(sp, rf, class), false);
    if i < first.len() {
        assert(first.contains(m));
    } else {
        assert(second[i - first.len()] == m);
        assert(second.contains(m));
    }
    lemma_unit_under_exactly_one_root(sp, rf, class, m);
}

/// Round trip of toggling: the disable move takes a unit's enabled backing
/// path to its disabled backing path, and the enable move is exactly the
/// inverse, so disabling then enabling (or the reverse) restores the
/// original backing path.
pub proof fn lemma_toggle_round_trip(sp: Seq<char>, rf: Seq<char>, class: ModClass, rel: Seq<char>)
    ensures
        move_source(sp, rf, class, rel, true) == move_target(sp, rf, class, rel, false),
        move_target(sp, rf, class, rel, true) == move_source(sp, rf, class, rel, false),
        move_target(sp, rf, class, rel, true) != move_target(sp, rf, class, rel, false),
{
    lemma_backing_paths_distinct(sp, rf, class, rel);
}

} // verus!
