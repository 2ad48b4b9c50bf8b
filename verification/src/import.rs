//! Reference data from the user's own HX Edit / POD Go Edit installation: which files are wanted,
//! which device family they belong to, where they land, and what a data directory holds.
//!
//! The filesystem work (walking the source, copying, listing) belongs to the caller; everything
//! decided about the files it finds is here.

use vstd::prelude::*;
use crate::text::{
    chars_eq, chars_of, contains, contains_seq, ends_with, has_suffix, join_path, lex_less, lex_lt,
    lemma_lex_total, lemma_lex_trans, owned, path_join, push_str, str_is,
};

verus! {

/// One device family's reference-data filenames.
#[derive(Debug, Clone, Copy, PartialEq, Eq)]
pub struct DataFamily {
    /// Human name, for messages.
    pub label: &'static str,
    /// Subdirectory of the data directory this family's files live in; empty for the HX family,
    /// which keeps the flat layout.
    pub subdir: &'static str,
    /// Per-model parameter ordering — the file a block's model reference indexes.
    pub symbols: &'static str,
    /// The model table carrying display names and categories.
    pub model_defs: &'static str,
    /// Parameter ranges and control metadata.
    pub controls: &'static str,
    /// Category catalog.
    pub catalog_json: &'static str,
}

/// The HX Edit names (HX Stomp / Helix / HX Effects).
pub open spec fn is_hx(f: DataFamily) -> bool {
    &&& f.label@ == "HX Edit"@
    &&& f.subdir@ == ""@
    &&& f.symbols@ == "Helix.sym"@
    &&& f.model_defs@ == "HelixModelDefs.bin"@
    &&& f.controls@ == "HelixControls.json"@
    &&& f.catalog_json@ == "HX_ModelCatalog.json"@
}

/// The POD Go Edit names.
pub open spec fn is_pod_go(f: DataFamily) -> bool {
    &&& f.label@ == "POD Go Edit"@
    &&& f.subdir@ == "pod-go"@
    &&& f.symbols@ == "PodGo.sym"@
    &&& f.model_defs@ == "PodGoModelDefs.bin"@
    &&& f.controls@ == "PGControls.json"@
    &&& f.catalog_json@ == "PGModelCatalog.json"@
}

/// The one file the catalog cannot work without, in the HX family's spelling.
pub fn required() -> (s: &'static str)
    ensures
        s@ == "Helix.sym"@,
{
    "Helix.sym"
}

/// HX Edit's names, serving the HX Stomp / Helix / HX Effects family.
pub fn hx() -> (f: DataFamily)
    ensures
        is_hx(f),
{
    DataFamily {
        label: "HX Edit",
        subdir: "",
        symbols: "Helix.sym",
        model_defs: "HelixModelDefs.bin",
        controls: "HelixControls.json",
        catalog_json: "HX_ModelCatalog.json",
    }
}

/// POD Go Edit's names: the same formats under other spellings, with a symbol table of its own.
pub fn pod_go() -> (f: DataFamily)
    ensures
        is_pod_go(f),
{
    DataFamily {
        label: "POD Go Edit",
        subdir: "pod-go",
        symbols: "PodGo.sym",
        model_defs: "PodGoModelDefs.bin",
        controls: "PGControls.json",
        catalog_json: "PGModelCatalog.json",
    }
}

/// Every family that can be imported, most specific first; the HX family, whose directory is the
/// data directory itself, comes last.
pub fn families() -> (v: Vec<DataFamily>)
    ensures
        v@.len() == 2,
        is_pod_go(v@[0]),
        is_hx(v@[1]),
{
    vec![pod_go(), hx()]
}

/// Where a family's files live under the data directory `data_dir`.
pub open spec fn dir_under_spec(f: DataFamily, data_dir: Seq<char>) -> Seq<char> {
    if f.subdir@.len() == 0 {
        data_dir
    } else {
        path_join(data_dir, f.subdir@)
    }
}

/// Whether `name` is one of the four files a family names.
pub open spec fn owns_spec(f: DataFamily, name: Seq<char>) -> bool {
    name == f.symbols@ || name == f.model_defs@ || name == f.controls@ || name == f.catalog_json@
}

/// Whether one of `names` spells `s`.
fn names_contain(names: &Vec<String>, s: &str) -> (r: bool)
    ensures
        r == exists|i: int| 0 <= i < names@.len() && #[trigger] names@[i]@ == s@,
{
    let target = chars_of(s);
    let mut i: usize = 0;
    while i < names.len()
        invariant
            i <= names@.len(),
            target@ == s@,
            forall|k: int| 0 <= k < i ==> #[trigger] names@[k]@ != s@,
        decreases names.len() - i,
    {
        if chars_eq(&chars_of(names[i].as_str()), &target) {
            return true;
        }
        i = i + 1;
    }
    false
}

impl DataFamily {
    /// The family whose reference data sits in a directory holding the files `files`: the first
    /// family, in [`families`] order, whose symbol table is among them.
    pub fn detect(files: &Vec<String>) -> (r: Option<DataFamily>)
        ensures
            (exists|i: int| 0 <= i < files@.len() && #[trigger] files@[i]@ == "PodGo.sym"@)
                ==> (r matches Some(f) && is_pod_go(f)),
            !(exists|i: int| 0 <= i < files@.len() && #[trigger] files@[i]@ == "PodGo.sym"@)
                ==> ((exists|i: int| 0 <= i < files@.len() && #[trigger] files@[i]@ == "Helix.sym"@)
                ==> (r matches Some(f) && is_hx(f))),
            !(exists|i: int| 0 <= i < files@.len() && #[trigger] files@[i]@ == "PodGo.sym"@)
                ==> (!(exists|i: int| 0 <= i < files@.len() && #[trigger] files@[i]@ == "Helix.sym"@)
                ==> r is None),
    {
        let p = pod_go();
        if names_contain(files, p.symbols) {
            return Some(p);
        }
        let h = hx();
        if names_contain(files, h.symbols) {
            return Some(h);
        }
        None
    }

    /// The family serving a device's model code: `P34` is the POD Go; every other code, unknown
    /// ones included, gets the HX family.
    pub fn for_model_code(code: &str) -> (f: DataFamily)
        ensures
            code@ == "P34"@ ==> is_pod_go(f),
            code@ != "P34"@ ==> is_hx(f),
    {
        if str_is(code, "P34") {
            pod_go()
        } else {
            hx()
        }
    }

    /// Where this family's files live under `data_dir`.
    pub fn dir_under(&self, data_dir: &str) -> (d: String)
        ensures
            d@ == dir_under_spec(*self, data_dir@),
    {
        if chars_of(self.subdir).len() == 0 {
            owned(data_dir)
        } else {
            join_path(data_dir, self.subdir)
        }
    }

    /// Files that must be present for model names and parameter ordering to resolve.
    pub fn essential(&self) -> (r: [&'static str; 2])
        ensures
            r[0] == self.symbols,
            r[1] == self.model_defs,
    {
        [self.symbols, self.model_defs]
    }

    /// Whether `name` is one of this family's four named files.
    pub fn owns(&self, name: &str) -> (r: bool)
        ensures
            r == owns_spec(*self, name@),
    {
        str_is(name, self.symbols) || str_is(name, self.model_defs) || str_is(name, self.controls)
            || str_is(name, self.catalog_json)
    }
}

/// Whether `name` is a reference-data file worth importing: any `.models` file, a file either
/// family names, the binary catalogs, and the default and empty preset templates — not the
/// factory presets an installer also carries.
pub open spec fn is_reference_name(name: Seq<char>) -> bool {
    ||| has_suffix(name, ".models"@)
    ||| name == "PodGo.sym"@ || name == "PodGoModelDefs.bin"@ || name == "PGControls.json"@
        || name == "PGModelCatalog.json"@
    ||| name == "Helix.sym"@ || name == "HelixModelDefs.bin"@ || name == "HelixControls.json"@
        || name == "HX_ModelCatalog.json"@
    ||| name == "HX_ModelCatalog.bin"@ || name == "PGModelCatalog.bin"@
    ||| name == "default_preset.hlx"@ || name == "default_preset_hxs.hlx"@
        || name == "default_preset_hfx.hlx"@ || name == "default_preset_p34.hlx"@
    ||| name == "empty_preset.hlx"@
}

/// Whether `name` is a reference-data file we import.
pub fn is_reference_file(name: &str) -> (r: bool)
    ensures
        r == is_reference_name(name@),
{
    if ends_with(&chars_of(name), &chars_of(".models")) {
        return true;
    }
    let fams = families();
    if fams[0].owns(name) || fams[1].owns(name) {
        return true;
    }
    str_is(name, "HX_ModelCatalog.bin") || str_is(name, "PGModelCatalog.bin")
        || str_is(name, "default_preset.hlx") || str_is(name, "default_preset_hxs.hlx")
        || str_is(name, "default_preset_hfx.hlx") || str_is(name, "default_preset_p34.hlx")
        || str_is(name, "empty_preset.hlx")
}

} // verus!

verus! {

/// What a directory listing shows of one family's directory: the names of its entries, and
/// whether the family's symbol table is a regular file there.
pub struct FamilyListing {
    pub entries: Vec<String>,
    pub has_symbols: bool,
}

/// Whether the local data directory holds usable reference data, and what is in it.
pub struct DataStatus {
    /// Whether any family's data is imported.
    pub present: bool,
    /// The families imported, by label, in [`families`] order.
    pub families: Vec<&'static str>,
    /// The directory consulted.
    pub dir: String,
    /// How many reference files are cached there, over all families.
    pub files: usize,
}

/// How many of `names` are reference-data files.
pub open spec fn count_refs(names: Seq<String>) -> nat
    decreases names.len(),
{
    if names.len() == 0 {
        0
    } else {
        count_refs(names.drop_last()) + if is_reference_name(names.last()@) { 1nat } else { 0nat }
    }
}

proof fn lemma_count_refs_bound(names: Seq<String>)
    ensures
        count_refs(names) <= names.len(),
    decreases names.len(),
{
    if names.len() > 0 {
        lemma_count_refs_bound(names.drop_last());
    }
}

fn count_reference_files(names: &Vec<String>) -> (n: usize)
    ensures
        n == count_refs(names@),
{
    let mut n: usize = 0;
    let mut i: usize = 0;
    while i < names.len()
        invariant
            i <= names@.len(),
            n == count_refs(names@.take(i as int)),
            n <= i,
        decreases names.len() - i,
    {
        proof {
            assert(names@.take(i + 1).drop_last() == names@.take(i as int));
        }
        if is_reference_file(names[i].as_str()) {
            n = n + 1;
        }
        i = i + 1;
    }
    assert(names@.take(names@.len() as int) == names@);
    n
}

/// The status of the data directory `dir`, from the listings of the families' directories in
/// [`families`] order (POD Go's subdirectory, then the data directory itself).
pub fn data_status(dir: String, listings: &Vec<FamilyListing>) -> (st: DataStatus)
    requires
        listings@.len() == 2,
        listings@[0].entries@.len() + listings@[1].entries@.len() <= usize::MAX,
    ensures
        st.present == (listings@[0].has_symbols || listings@[1].has_symbols),
        st.families@.len() == (if listings@[0].has_symbols { 1int } else { 0 }) + (if listings@[1].has_symbols { 1int } else { 0 }),
        listings@[0].has_symbols ==> st.families@[0]@ == "POD Go Edit"@,
        listings@[1].has_symbols ==> st.families@[st.families@.len() - 1]@ == "HX Edit"@,
        st.dir == dir,
        st.files == count_refs(listings@[0].entries@) + count_refs(listings@[1].entries@),
{
    let fams = families();
    let a = count_reference_files(&listings[0].entries);
    let b = count_reference_files(&listings[1].entries);
    proof {
        lemma_count_refs_bound(listings@[0].entries@);
        lemma_count_refs_bound(listings@[1].entries@);
    }
    let mut labels: Vec<&'static str> = Vec::new();
    if listings[0].has_symbols {
        labels.push(fams[0].label);
    }
    if listings[1].has_symbols {
        labels.push(fams[1].label);
    }
    DataStatus {
        present: listings[0].has_symbols || listings[1].has_symbols,
        families: labels,
        dir,
        files: a + b,
    }
}

} // verus!

verus! {

/// Whether a found file sits under something called `res` — the copy preferred when one name
/// turns up twice.
pub open spec fn in_res(path: Seq<char>) -> bool {
    contains_seq(path, "res"@)
}

/// The found files, as (name, path) text.
pub open spec fn found_view(found: Seq<(String, String)>) -> Seq<(Seq<char>, Seq<char>)> {
    found.map_values(|e: (String, String)| (e.0@, e.1@))
}

/// The files to copy, by name: each name keeps the last path found for it, unless an earlier
/// one lay under `res` and the later one does not.
pub open spec fn by_name(found: Seq<(Seq<char>, Seq<char>)>) -> Map<Seq<char>, Seq<char>>
    decreases found.len(),
{
    if found.len() == 0 {
        Map::empty()
    } else {
        let m = by_name(found.drop_last());
        let n = found.last().0;
        let p = found.last().1;
        if !m.dom().contains(n) || in_res(p) || !in_res(m[n]) {
            m.insert(n, p)
        } else {
            m
        }
    }
}

/// `entries` is sorted by name, each name once.
pub open spec fn sorted_by_name(entries: Seq<(String, String)>) -> bool {
    forall|i: int, j: int| 0 <= i < j < entries.len() ==> lex_lt(#[trigger] entries[i].0@, #[trigger] entries[j].0@)
}

/// `entries` lists exactly the map `m`, as (name, path) pairs.
pub open spec fn lists_map(entries: Seq<(String, String)>, m: Map<Seq<char>, Seq<char>>) -> bool {
    &&& forall|i: int| 0 <= i < entries.len() ==> m.dom().contains(#[trigger] entries[i].0@) && m[entries[i].0@] == entries[i].1@
    &&& forall|k: Seq<char>| #[trigger] m.dom().contains(k) ==> exists|i: int| 0 <= i < entries.len() && entries[i].0@ == k
}

/// What an import will do: which family's data it is, where it lands, and which files go there.
pub struct ImportPlan {
    pub family: DataFamily,
    /// The directory the files are copied into.
    pub dest: String,
    /// (name, source path) of every file to copy, sorted by name.
    pub files: Vec<(String, String)>,
}

/// What an import copied.
pub struct ImportSummary {
    /// Which vendor's data this was — `"HX Edit"` or `"POD Go Edit"`.
    pub family: &'static str,
    /// Number of reference files copied into `dest`.
    pub copied: usize,
    /// Where they landed.
    pub dest: String,
    /// Essential files that are not there after the copy.
    pub missing: Vec<String>,
}

/// The error text for a source with no reference data in it.
pub open spec fn no_data_message(source: Seq<char>, source_is_dir: bool) -> Seq<char> {
    if source_is_dir {
        "no reference data (Helix.sym, *.models, …) found under "@ + source
            + " — point at an HX Edit install's `res/` folder or an unpacked installer"@
    } else {
        "no reference data found in "@ + source + " — is this an HX Edit installer?"@
    }
}

/// Where `name` goes in the sorted `entries`: the index of the entry with that name if there is
/// one (`true`), else the index it would be inserted at (`false`).
fn find_slot(entries: &Vec<(String, String)>, name: &String) -> (r: (usize, bool))
    requires
        sorted_by_name(entries@),
    ensures
        r.0 <= entries@.len(),
        forall|k: int| 0 <= k < r.0 ==> lex_lt(#[trigger] entries@[k].0@, name@),
        r.1 ==> r.0 < entries@.len() && entries@[r.0 as int].0@ == name@,
        !r.1 ==> forall|k: int| r.0 <= k < entries@.len() ==> lex_lt(name@, #[trigger] entries@[k].0@),
{
    let target = chars_of(name.as_str());
    let mut i: usize = 0;
    while i < entries.len() && lex_less(&chars_of(entries[i].0.as_str()), &target)
        invariant
            i <= entries@.len(),
            target@ == name@,
            sorted_by_name(entries@),
            forall|k: int| 0 <= k < i ==> lex_lt(#[trigger] entries@[k].0@, name@),
        decreases entries.len() - i,
    {
        i = i + 1;
    }
    if i < entries.len() && entries[i].0 == *name {
        return (i, true);
    }
    proof {
        if i < entries@.len() {
            lemma_lex_total(entries@[i as int].0@, name@);
            assert forall|k: int| i <= k < entries@.len() implies lex_lt(name@, #[trigger] entries@[k].0@) by {
                if k > i {
                    lemma_lex_trans(name@, entries@[i as int].0@, entries@[k].0@);
                }
            }
        }
    }
    (i, false)
}

/// Whether a name in `entries` spells `s`.
fn has_entry(entries: &Vec<(String, String)>, s: &str) -> (r: bool)
    ensures
        r == exists|i: int| 0 <= i < entries@.len() && #[trigger] entries@[i].0@ == s@,
{
    let target = chars_of(s);
    let mut i: usize = 0;
    while i < entries.len()
        invariant
            i <= entries@.len(),
            target@ == s@,
            forall|k: int| 0 <= k < i ==> #[trigger] entries@[k].0@ != s@,
        decreases entries.len() - i,
    {
        if chars_eq(&chars_of(entries[i].0.as_str()), &target) {
            return true;
        }
        i = i + 1;
    }
    false
}

proof fn lemma_by_name_keys(found: Seq<(Seq<char>, Seq<char>)>)
    ensures
        found.len() > 0 ==> by_name(found).dom().contains(found[0].0),
        found.len() == 0 ==> by_name(found) == Map::<Seq<char>, Seq<char>>::empty(),
    decreases found.len(),
{
    if found.len() > 1 {
        lemma_by_name_keys(found.drop_last());
        assert(found.drop_last()[0] == found[0]);
    }
}

/// Plan an import of the files found under `source` (a directory when `source_is_dir`, else an
/// installer unpacked elsewhere) into the data directory `data_dir`. `found` holds the (name,
/// path) of every reference file found, in the order found. The family is the one whose symbol
/// table is among the files — POD Go's first — and the HX family when neither is.
pub fn import_from(source: &str, source_is_dir: bool, found: &Vec<(String, String)>, data_dir: &str)
    -> (r: Result<ImportPlan, String>)
    ensures
        found@.len() == 0 <==> r is Err,
        r matches Err(e) ==> e@ == no_data_message(source@, source_is_dir),
        r matches Ok(plan) ==> {
            let m = by_name(found_view(found@));
            &&& sorted_by_name(plan.files@)
            &&& lists_map(plan.files@, m)
            &&& m.dom().contains("PodGo.sym"@) ==> is_pod_go(plan.family)
            &&& !m.dom().contains("PodGo.sym"@) ==> is_hx(plan.family)
            &&& plan.dest@ == dir_under_spec(plan.family, data_dir@)
        },
{
    let ghost fv = found_view(found@);
    let mut out: Vec<(String, String)> = Vec::new();
    let mut i: usize = 0;
    while i < found.len()
        invariant
            i <= found@.len(),
            fv == found_view(found@),
            sorted_by_name(out@),
            lists_map(out@, by_name(fv.take(i as int))),
        decreases found.len() - i,
    {
        let ghost m = by_name(fv.take(i as int));
        let name = found[i].0.clone();
        let path = found[i].1.clone();
        proof {
            assert(fv.take(i + 1).drop_last() == fv.take(i as int));
            assert(fv.take(i + 1).last() == fv[i as int]);
            assert(fv[i as int] == (name@, path@));
        }
        let (j, hit) = find_slot(&out, &name);
        if hit {
            let keep = contains(&chars_of(path.as_str()), &chars_of("res"))
                || !contains(&chars_of(out[j].1.as_str()), &chars_of("res"));
            proof {
                assert(m.dom().contains(name@));
                assert(m[name@] == out@[j as int].1@);
            }
            if keep {
                let ghost before = out@;
                out.set(j, (name, path));
                proof {
                    let m2 = m.insert(fv[i as int].0, fv[i as int].1);
                    assert(by_name(fv.take(i + 1)) == m2);
                    assert forall|a: int, b: int| 0 <= a < b < out@.len() implies lex_lt(#[trigger] out@[a].0@, #[trigger] out@[b].0@) by {
                        assert(before[a].0@ == out@[a].0@ || a == j);
                        assert(before[b].0@ == out@[b].0@ || b == j);
                    }
                    assert forall|k: Seq<char>| #[trigger] m2.dom().contains(k) implies exists|x: int| 0 <= x < out@.len() && out@[x].0@ == k by {
                        if k != fv[i as int].0 {
                            let x = choose|x: int| 0 <= x < before.len() && before[x].0@ == k;
                            assert(out@[x].0@ == k);
                        } else {
                            assert(out@[j as int].0@ == k);
                        }
                    }
                    assert forall|x: int| 0 <= x < out@.len() implies m2.dom().contains(#[trigger] out@[x].0@) && m2[out@[x].0@] == out@[x].1@ by {
                        if x != j {
                            assert(out@[x] == before[x]);
                            lemma_lex_total(before[x].0@, before[x].0@);
                            assert(before[x].0@ != name@);
                        }
                    }
                }
            } else {
                proof {
                    assert(by_name(fv.take(i + 1)) == m);
                }
            }
        } else {
            let ghost before = out@;
            proof {
                assert(!m.dom().contains(name@)) by {
                    if m.dom().contains(name@) {
                        let x = choose|x: int| 0 <= x < before.len() && before[x].0@ == name@;
                        if x < j {
                            lemma_lex_total(name@, name@);
                        } else {
                            lemma_lex_total(name@, name@);
                        }
                    }
                }
            }
            out.insert(j, (name, path));
            proof {
                let m2 = m.insert(fv[i as int].0, fv[i as int].1);
                assert(by_name(fv.take(i + 1)) == m2);
                assert forall|x: int| 0 <= x < out@.len() implies (x < j ==> out@[x] == before[x]) && (x > j ==> out@[x] == before[x - 1]) by {}
                assert forall|a: int, b: int| 0 <= a < b < out@.len() implies lex_lt(#[trigger] out@[a].0@, #[trigger] out@[b].0@) by {
                    if a < j && b > j {
                        lemma_lex_trans(before[a].0@, name@, before[b - 1].0@);
                    }
                }
                assert forall|k: Seq<char>| #[trigger] m2.dom().contains(k) implies exists|x: int| 0 <= x < out@.len() && out@[x].0@ == k by {
                    if k != fv[i as int].0 {
                        let x = choose|x: int| 0 <= x < before.len() && before[x].0@ == k;
                        if x < j {
                            assert(out@[x].0@ == k);
                        } else {
                            assert(out@[x + 1].0@ == k);
                        }
                    } else {
                        assert(out@[j as int].0@ == k);
                    }
                }
                assert forall|x: int| 0 <= x < out@.len() implies m2.dom().contains(#[trigger] out@[x].0@) && m2[out@[x].0@] == out@[x].1@ by {
                    if x < j {
                        assert(out@[x] == before[x]);
                    } else if x > j {
                        assert(out@[x] == before[x - 1]);
                    }
                }
            }
        }
        i = i + 1;
    }
    proof {
        assert(fv.take(found@.len() as int) == fv);
    }
    if out.len() == 0 {
        proof {
            if found@.len() > 0 {
                lemma_by_name_keys(fv);
                let k = fv[0].0;
                assert(by_name(fv).dom().contains(k));
            }
        }
        let mut msg = String::new();
        if source_is_dir {
            push_str(&mut msg, "no reference data (Helix.sym, *.models, …) found under ");
            push_str(&mut msg, source);
            push_str(&mut msg, " — point at an HX Edit install's `res/` folder or an unpacked installer");
        } else {
            push_str(&mut msg, "no reference data found in ");
            push_str(&mut msg, source);
            push_str(&mut msg, " — is this an HX Edit installer?");
        }
        return Err(msg);
    }
    proof {
        if found@.len() == 0 {
            lemma_by_name_keys(fv);
            assert(fv.len() == 0);
            assert(out@.len() > 0);
            assert(by_name(fv).dom().contains(out@[0].0@));
        }
    }
    let family = if has_entry(&out, "PodGo.sym") { pod_go() } else { hx() };
    let dest = family.dir_under(data_dir);
    Ok(ImportPlan { family, dest, files: out })
}

impl ImportPlan {
    /// What the import did once every file was copied, given for each of the family's
    /// [`essential`](DataFamily::essential) files whether it is in `dest` afterwards.
    pub fn summary(&self, essential_present: [bool; 2]) -> (s: ImportSummary)
        ensures
            s.family == self.family.label,
            s.copied == self.files@.len(),
            s.dest@ == self.dest@,
            s.missing@.len() == (if essential_present[0] { 0int } else { 1 }) + (if essential_present[1] { 0int } else { 1 }),
            !essential_present[0] ==> s.missing@[0]@ == self.family.symbols@,
            !essential_present[1] ==> s.missing@[s.missing@.len() - 1]@ == self.family.model_defs@,
    {
        let names = self.family.essential();
        let mut missing: Vec<String> = Vec::new();
        if !essential_present[0] {
            missing.push(owned(names[0]));
        }
        if !essential_present[1] {
            missing.push(owned(names[1]));
        }
        ImportSummary {
            family: self.family.label,
            copied: self.files.len(),
            dest: self.dest.clone(),
            missing,
        }
    }
}

/// Every file an import family names is a reference file, so the import takes it: the symbol
/// table, the model table, the controls and the catalog, of either family.
pub proof fn family_files_are_reference_files(f: DataFamily, name: Seq<char>)
    requires
        is_hx(f) || is_pod_go(f),
        owns_spec(f, name),
    ensures
        is_reference_name(name),
{
}

} // verus!
