//! Crate specs, and how two specs of one crate are merged.
use crate::text::{contains_text, occurs_in, texts};
use std::collections::{BTreeMap, BTreeSet};
use vstd::prelude::*;

verus! {

/// What the rust-analyzer aspect says about one crate.
#[derive(Clone, Debug, PartialEq, Eq, PartialOrd, Ord)]
pub struct CrateSpec {
    pub crate_id: String,
    pub display_name: String,
    pub edition: String,
    pub root_module: String,
    pub is_workspace_member: bool,
    pub deps: BTreeSet<String>,
    pub proc_macro_dylib_path: Option<String>,
    pub source: Option<CrateSpecSource>,
    pub cfg: Vec<String>,
    pub env: BTreeMap<String, String>,
    pub target: String,
    pub crate_type: String,
}

/// Which directories belong to the sources of a crate.
#[derive(Clone, Debug, PartialEq, Eq, PartialOrd, Ord)]
pub struct CrateSpecSource {
    pub exclude_dirs: Vec<String>,
    pub include_dirs: Vec<String>,
}

/// The contents of a [`CrateSpec`] as mathematical values.
#[verifier::ext_equal]
pub struct CrateSpecModel {
    pub crate_id: Seq<char>,
    pub display_name: Seq<char>,
    pub edition: Seq<char>,
    pub root_module: Seq<char>,
    pub is_workspace_member: bool,
    pub deps: Set<Seq<char>>,
    pub proc_macro_dylib_path: Option<Seq<char>>,
    pub source: Option<CrateSpecSourceModel>,
    pub cfg: Seq<Seq<char>>,
    pub env: Map<Seq<char>, Seq<char>>,
    pub target: Seq<char>,
    pub crate_type: Seq<char>,
}

/// The contents of a [`CrateSpecSource`] as mathematical values.
#[verifier::ext_equal]
pub struct CrateSpecSourceModel {
    pub exclude_dirs: Seq<Seq<char>>,
    pub include_dirs: Seq<Seq<char>>,
}

impl View for CrateSpecSource {
    type V = CrateSpecSourceModel;

    open spec fn view(&self) -> CrateSpecSourceModel {
        CrateSpecSourceModel {
            exclude_dirs: texts(self.exclude_dirs@),
            include_dirs: texts(self.include_dirs@),
        }
    }
}

impl View for CrateSpec {
    type V = CrateSpecModel;

    open spec fn view(&self) -> CrateSpecModel {
        CrateSpecModel {
            crate_id: self.crate_id@,
            display_name: self.display_name@,
            edition: self.edition@,
            root_module: self.root_module@,
            is_workspace_member: self.is_workspace_member,
            deps: self.deps.deep_view(),
            proc_macro_dylib_path: match self.proc_macro_dylib_path {
                Some(path) => Some(path@),
                None => None,
            },
            source: match self.source {
                Some(source) => Some(source@),
                None => None,
            },
            cfg: texts(self.cfg@),
            env: self.env.deep_view(),
            target: self.target@,
            crate_type: self.crate_type@,
        }
    }
}

/// The models of a sequence of crate specs.
pub open spec fn models(specs: Seq<CrateSpec>) -> Seq<CrateSpecModel> {
    Seq::new(specs.len(), |i: int| specs[i]@)
}

impl CrateSpecModel {
    /// The crate is built as a Rust library.
    pub open spec fn is_rlib(self) -> bool {
        self.crate_type == "rlib"@
    }

    /// The crate is a proc macro whose path names the optimized build for the
    /// execution platform.
    pub open spec fn has_opt_exec_path(self) -> bool {
        match self.proc_macro_dylib_path {
            Some(path) => occurs_in("-opt-exec-"@, path),
            None => false,
        }
    }

    /// `self` with what `later`, another spec of the same crate, adds to it.
    ///
    /// Dependencies are united, and cfgs that are not there yet are appended. A
    /// library overrides the display name and the crate type. An optimized
    /// proc macro path overrides the path. Everything else stays as it is.
    pub open spec fn merge(self, later: CrateSpecModel) -> CrateSpecModel {
        CrateSpecModel {
            deps: self.deps.union(later.deps),
            cfg: self.cfg + later.cfg.filter(|c: Seq<char>| !self.cfg.contains(c)),
            display_name: if later.is_rlib() {
                later.display_name
            } else {
                self.display_name
            },
            crate_type: if later.is_rlib() {
                later.crate_type
            } else {
                self.crate_type
            },
            proc_macro_dylib_path: if later.has_opt_exec_path() {
                later.proc_macro_dylib_path
            } else {
                self.proc_macro_dylib_path
            },
            ..self
        }
    }
}

/// Adds every string of `more` to `strings`, with the `extend` of `BTreeSet`.
///
/// Trusted: `extend` inserts each item that the set `more` hands out. Afterwards
/// the set holds a text exactly if it held it before or `more` did.
#[verifier::external_body]
fn extend_strings(strings: &mut BTreeSet<String>, more: BTreeSet<String>)
    ensures
        final(strings).deep_view() == old(strings).deep_view().union(more.deep_view()),
{
    strings.extend(more);
}

/// Whether one of `strings` has the text of `wanted`.
fn holds_text(strings: &Vec<String>, wanted: &String) -> (found: bool)
    ensures
        found == texts(strings@).contains(wanted@),
{
    let mut i: usize = 0;
    while i < strings.len()
        invariant
            0 <= i <= strings.len(),
            forall|j: int| 0 <= j < i ==> texts(strings@)[j] != wanted@,
        decreases strings.len() - i,
    {
        if strings[i] == *wanted {
            assert(texts(strings@)[i as int] == wanted@);
            return true;
        }
        i = i + 1;
    }
    false
}

/// Appends to `cfg` those of `more` that it does not hold yet.
fn extend_cfg(cfg: &mut Vec<String>, more: Vec<String>)
    ensures
        texts(final(cfg)@) == texts(old(cfg)@) + texts(more@).filter(
            |c: Seq<char>| !texts(old(cfg)@).contains(c),
        ),
{
    let ghost before = texts(cfg@);
    let ghost fresh = |c: Seq<char>| !before.contains(c);
    let mut added: Vec<String> = Vec::new();
    for c in it: more
        invariant
            it.seq() == more@,
            before == texts(cfg@),
            fresh == (|c: Seq<char>| !before.contains(c)),
            texts(added@) == texts(more@).take(it.index() as int).filter(fresh),
    {
        proof {
            reveal(Seq::filter);
            assert(texts(more@).take(it.index() + 1).drop_last() =~= texts(more@).take(
                it.index() as int,
            ));
        }
        if !holds_text(cfg, &c) {
            added.push(c);
        }
    }
    assert(texts(more@).take(more@.len() as int) =~= texts(more@));
    cfg.append(&mut added);
}

impl CrateSpec {
    /// Merges `later`, another spec of the same crate, into this one.
    pub fn merge(&mut self, later: CrateSpec)
        ensures
            final(self)@ == old(self)@.merge(later@),
            later.crate_type@ == "rlib"@ ==> final(self).display_name@ == later.display_name@
                && final(self).crate_type@ == "rlib"@,
            later.crate_type@ != "rlib"@ ==> final(self).display_name@ == old(self).display_name@
                && final(self).crate_type@ == old(self).crate_type@,
            later.proc_macro_dylib_path matches Some(path) ==> occurs_in("-opt-exec-"@, path@)
                ==> final(self).proc_macro_dylib_path == Some(path),
            (later.proc_macro_dylib_path matches Some(path) ==> !occurs_in("-opt-exec-"@, path@))
                ==> final(self).proc_macro_dylib_path == old(self).proc_macro_dylib_path,
            final(self).deps.deep_view() == old(self).deps.deep_view().union(
                later.deps.deep_view(),
            ),
            texts(final(self).cfg@) == texts(old(self).cfg@) + texts(later.cfg@).filter(
                |c: Seq<char>| !texts(old(self).cfg@).contains(c),
            ),
            final(self).crate_id == old(self).crate_id,
            final(self).edition == old(self).edition,
            final(self).root_module == old(self).root_module,
            final(self).is_workspace_member == old(self).is_workspace_member,
            final(self).source == old(self).source,
            final(self).env == old(self).env,
            final(self).target == old(self).target,
    {
        extend_strings(&mut self.deps, later.deps);
        extend_cfg(&mut self.cfg, later.cfg);

        // display_name should match the library's crate name because rust-analyzer
        // seems to use display_name for matching crate entries in rust-project.json
        // against symbols in source files. For more details, see
        // https://github.com/bazelbuild/rules_rust/issues/1032
        if later.crate_type == "rlib".to_string() {
            self.display_name = later.display_name;
            self.crate_type = "rlib".to_string();
        }

        // For proc-macro crates that exist within the workspace, there will be a
        // generated crate spec in both the fastbuild and opt-exec configuration.
        // Prefer proc macro paths with an opt-exec component in the path.
        if let Some(path) = later.proc_macro_dylib_path {
            if contains_text(path.as_str(), "-opt-exec-") {
                self.proc_macro_dylib_path = Some(path);
            }
        }
    }
}

} // verus!
