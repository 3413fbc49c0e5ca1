//! The recipe data model: what a `(target, version)` declares about its
//! sources, dependencies, build steps and artefacts, together with the
//! spec-level views the contracts speak of.

use vstd::prelude::*;
use crate::strutil::{chars_of, string_of};

verus! {

/// How one named source is materialised into the build root.
#[derive(Debug, Clone)]
pub struct Source {
    pub extract: Option<String>,
    pub noextract: Option<String>,
    pub copy: Option<Vec<String>>,
    pub chmod: Option<String>,
}

pub ghost struct SourceV {
    pub extract: Option<Seq<char>>,
    pub noextract: Option<Seq<char>>,
    pub copy: Option<Seq<Seq<char>>>,
    pub chmod: Option<Seq<char>>,
}

impl DeepView for Source {
    type V = SourceV;

    open spec fn deep_view(&self) -> SourceV {
        SourceV {
            extract: self.extract.deep_view(),
            noextract: self.noextract.deep_view(),
            copy: self.copy.deep_view(),
            chmod: self.chmod.deep_view(),
        }
    }
}

/// Where a source's bytes come from and the digest they must carry.
#[derive(Debug, Clone)]
pub struct SourceContents {
    pub url: String,
    pub sha: String,
}

pub ghost struct SourceContentsV {
    pub url: Seq<char>,
    pub sha: Seq<char>,
}

impl DeepView for SourceContents {
    type V = SourceContentsV;

    open spec fn deep_view(&self) -> SourceContentsV {
        SourceContentsV { url: self.url@, sha: self.sha@ }
    }
}

/// One build step: a bare command line, or a command line with explicit
/// serialisation and escaping flags.  The defaults are `serial = true`
/// and `bash = false`.
#[derive(Debug, Clone)]
pub enum RecipeBuildStep {
    Simple(String),
    Complex { cmd: String, serial: bool, bash: bool },
}

pub ghost enum RecipeBuildStepV {
    Simple(Seq<char>),
    Complex { cmd: Seq<char>, serial: bool, bash: bool },
}

impl DeepView for RecipeBuildStep {
    type V = RecipeBuildStepV;

    open spec fn deep_view(&self) -> RecipeBuildStepV {
        match self {
            RecipeBuildStep::Simple(s) => RecipeBuildStepV::Simple(s@),
            RecipeBuildStep::Complex { cmd, serial, bash } => RecipeBuildStepV::Complex {
                cmd: cmd@,
                serial: *serial,
                bash: *bash,
            },
        }
    }
}

impl RecipeBuildStep {
    /// The command text, the serialisation flag and the escaping flag,
    /// with the defaults applied.
    pub open spec fn cmd_view(&self) -> Seq<char> {
        match self {
            RecipeBuildStep::Simple(s) => s@,
            RecipeBuildStep::Complex { cmd, .. } => cmd@,
        }
    }

    pub open spec fn serial_view(&self) -> bool {
        match self {
            RecipeBuildStep::Simple(_) => true,
            RecipeBuildStep::Complex { serial, .. } => *serial,
        }
    }

    pub open spec fn bash_view(&self) -> bool {
        match self {
            RecipeBuildStep::Simple(_) => false,
            RecipeBuildStep::Complex { bash, .. } => *bash,
        }
    }
}

/// A build is either a flat list of steps, or named phases with
/// per-phase defaults.
#[derive(Debug, Clone)]
pub enum RecipeBuildSteps {
    Single { single: Vec<RecipeBuildStep> },
    Piecewise {
        unpack: Option<Vec<RecipeBuildStep>>,
        unpack_dirname: String,
        patch_dir: String,
        package_dir: Option<String>,
        prepare: Option<Vec<RecipeBuildStep>>,
        configure: Option<Vec<RecipeBuildStep>>,
        compile: Option<Vec<RecipeBuildStep>>,
        install: Option<Vec<RecipeBuildStep>>,
        postprocess: Option<Vec<RecipeBuildStep>>,
    },
}

pub ghost enum RecipeBuildStepsV {
    Single { single: Seq<RecipeBuildStepV> },
    Piecewise {
        unpack: Option<Seq<RecipeBuildStepV>>,
        unpack_dirname: Seq<char>,
        patch_dir: Seq<char>,
        package_dir: Option<Seq<char>>,
        prepare: Option<Seq<RecipeBuildStepV>>,
        configure: Option<Seq<RecipeBuildStepV>>,
        compile: Option<Seq<RecipeBuildStepV>>,
        install: Option<Seq<RecipeBuildStepV>>,
        postprocess: Option<Seq<RecipeBuildStepV>>,
    },
}

impl DeepView for RecipeBuildSteps {
    type V = RecipeBuildStepsV;

    open spec fn deep_view(&self) -> RecipeBuildStepsV {
        match self {
            RecipeBuildSteps::Single { single } => RecipeBuildStepsV::Single {
                single: single.deep_view(),
            },
            RecipeBuildSteps::Piecewise {
                unpack,
                unpack_dirname,
                patch_dir,
                package_dir,
                prepare,
                configure,
                compile,
                install,
                postprocess,
            } => RecipeBuildStepsV::Piecewise {
                unpack: unpack.deep_view(),
                unpack_dirname: unpack_dirname@,
                patch_dir: patch_dir@,
                package_dir: package_dir.deep_view(),
                prepare: prepare.deep_view(),
                configure: configure.deep_view(),
                compile: compile.deep_view(),
                install: install.deep_view(),
                postprocess: postprocess.deep_view(),
            },
        }
    }
}

/// A dependency on another recipe, with optional path rewrites applied
/// when its archive is unpacked into the build root.
#[derive(Debug, Clone)]
pub struct DepSpec {
    pub name: String,
    pub version: String,
    pub from: Option<String>,
    pub to: Option<String>,
}

pub ghost struct DepSpecV {
    pub name: Seq<char>,
    pub version: Seq<char>,
    pub from: Option<Seq<char>>,
    pub to: Option<Seq<char>>,
}

impl DeepView for DepSpec {
    type V = DepSpecV;

    open spec fn deep_view(&self) -> DepSpecV {
        DepSpecV {
            name: self.name@,
            version: self.version@,
            from: self.from.deep_view(),
            to: self.to.deep_view(),
        }
    }
}

/// What `name[:version[:from[:to]]]` denotes, or `None` when the text
/// has no version.
pub open spec fn dep_spec_of(s: Seq<char>) -> Option<DepSpecV> {
    let parts = crate::strutil::split_char(s, ':');
    if parts.len() >= 2 {
        Some(
            DepSpecV {
                name: parts[0],
                version: parts[1],
                from: if parts.len() >= 3 {
                    Some(parts[2])
                } else {
                    None
                },
                to: if parts.len() >= 4 {
                    Some(parts[3])
                } else {
                    None
                },
            },
        )
    } else {
        None
    }
}

impl DepSpec {
    /// Parse a colon-separated dependency string.
    pub fn parse(s: &str) -> (r: Option<DepSpec>)
        ensures
            r.deep_view() == dep_spec_of(s@),
    {
        let cs = chars_of(s);
        let parts = crate::strutil::split_char_exec(&cs, ':');
        proof {
            assert(parts@.len() >= 1);
        }
        if parts.len() >= 2 {
            let name = string_of(&parts[0]);
            let version = string_of(&parts[1]);
            let from = if parts.len() >= 3 {
                Some(string_of(&parts[2]))
            } else {
                None
            };
            let to = if parts.len() >= 4 {
                Some(string_of(&parts[3]))
            } else {
                None
            };
            Some(DepSpec { name, version, from, to })
        } else {
            None
        }
    }
}

#[derive(Debug, Clone)]
pub enum Owner {
    Single(String),
    Multiple(Vec<String>),
}

pub ghost enum OwnerV {
    Single(Seq<char>),
    Multiple(Seq<Seq<char>>),
}

impl DeepView for Owner {
    type V = OwnerV;

    open spec fn deep_view(&self) -> OwnerV {
        match self {
            Owner::Single(s) => OwnerV::Single(s@),
            Owner::Multiple(v) => OwnerV::Multiple(v.deep_view()),
        }
    }
}

#[derive(Debug, Clone)]
pub struct License {
    pub spdx: String,
    pub owner: Owner,
    pub license_file: String,
}

pub ghost struct LicenseV {
    pub spdx: Seq<char>,
    pub owner: OwnerV,
    pub license_file: Seq<char>,
}

impl DeepView for License {
    type V = LicenseV;

    open spec fn deep_view(&self) -> LicenseV {
        LicenseV {
            spdx: self.spdx@,
            owner: self.owner.deep_view(),
            license_file: self.license_file@,
        }
    }
}

#[derive(Debug, Clone)]
pub struct Licenses {
    pub recipe: Option<License>,
    pub package: Option<License>,
}

pub ghost struct LicensesV {
    pub recipe: Option<LicenseV>,
    pub package: Option<LicenseV>,
}

impl DeepView for Licenses {
    type V = LicensesV;

    open spec fn deep_view(&self) -> LicensesV {
        LicensesV { recipe: self.recipe.deep_view(), package: self.package.deep_view() }
    }
}

/// A recipe as its file declares it, before the name and version are
/// attached and the dependency strings are resolved.  The source map is
/// an ordered list of `(logical name, directive)` pairs.
#[derive(Debug, Clone)]
pub struct RecipeVersion {
    pub licenses: Option<Licenses>,
    pub source: Option<Vec<(String, Source)>>,
    pub shell: Option<String>,
    pub deps: Option<Vec<String>>,
    pub mkdirs: Option<Vec<String>>,
    pub build: RecipeBuildSteps,
    pub artefacts: Vec<String>,
}

/// A fully resolved recipe: named, versioned, dependency strings parsed.
#[derive(Debug, Clone)]
pub struct NamedRecipeVersion {
    pub name: String,
    pub version: String,
    pub source: Option<Vec<(String, Source)>>,
    pub shell: Option<DepSpec>,
    pub deps: Option<Vec<DepSpec>>,
    pub mkdirs: Option<Vec<String>>,
    pub build: RecipeBuildSteps,
    pub artefacts: Vec<String>,
}

pub ghost struct NamedRecipeVersionV {
    pub name: Seq<char>,
    pub version: Seq<char>,
    pub source: Option<Seq<(Seq<char>, SourceV)>>,
    pub shell: Option<DepSpecV>,
    pub deps: Option<Seq<DepSpecV>>,
    pub mkdirs: Option<Seq<Seq<char>>>,
    pub build: RecipeBuildStepsV,
    pub artefacts: Seq<Seq<char>>,
}

impl DeepView for NamedRecipeVersion {
    type V = NamedRecipeVersionV;

    open spec fn deep_view(&self) -> NamedRecipeVersionV {
        NamedRecipeVersionV {
            name: self.name@,
            version: self.version@,
            source: self.source.deep_view(),
            shell: self.shell.deep_view(),
            deps: self.deps.deep_view(),
            mkdirs: self.mkdirs.deep_view(),
            build: self.build.deep_view(),
            artefacts: self.artefacts.deep_view(),
        }
    }
}

/// Serde-style default helpers for the step flags.
pub fn _default_true() -> (r: bool)
    ensures
        r,
{
    true
}

pub fn _default_false() -> (r: bool)
    ensures
        !r,
{
    false
}

impl NamedRecipeVersion {
    /// Attach a name and version to a parsed recipe and resolve its
    /// dependency strings.  `None` when a dependency or shell string
    /// lacks its version part.
    pub fn load_by_target_version(target: &str, version: &str, rv: RecipeVersion) -> (r: Option<
        NamedRecipeVersion,
    >)
        ensures
            match r {
                Some(n) => {
                    &&& n.name@ == target@
                    &&& n.version@ == version@
                    &&& n.source.deep_view() == rv.source.deep_view()
                    &&& n.mkdirs.deep_view() == rv.mkdirs.deep_view()
                    &&& n.build.deep_view() == rv.build.deep_view()
                    &&& n.artefacts.deep_view() == rv.artefacts.deep_view()
                    &&& match rv.shell {
                        None => n.shell is None,
                        Some(sh) => dep_spec_of(sh@) is Some && n.shell.deep_view()
                            == dep_spec_of(sh@),
                    }
                    &&& match rv.deps {
                        None => n.deps is None,
                        Some(ds) => {
                            &&& n.deps is Some
                            &&& (forall|k: int|
                                0 <= k < ds.deep_view().len()
                                    ==> dep_spec_of(#[trigger] ds.deep_view()[k]) is Some)
                            &&& n.deps.deep_view() == Some(
                                Seq::new(
                                    ds.deep_view().len(),
                                    |k: int| dep_spec_of(ds.deep_view()[k]).unwrap(),
                                ),
                            )
                        },
                    }
                },
                None => {
                    ||| rv.shell matches Some(sh) && dep_spec_of(sh@) is None
                    ||| rv.deps matches Some(ds) && exists|k: int|
                        0 <= k < ds.deep_view().len()
                            && dep_spec_of(#[trigger] ds.deep_view()[k]) is None
                },
            },
    {
        let shell: Option<DepSpec> = match rv.shell {
            None => None,
            Some(sh) => match DepSpec::parse(sh.as_str()) {
                Some(d) => Some(d),
                None => {
                    return None;
                },
            },
        };
        let deps: Option<Vec<DepSpec>> = match rv.deps {
            None => None,
            Some(ds) => {
                let mut parsed: Vec<DepSpec> = Vec::new();
                let mut k: usize = 0;
                while k < ds.len()
                    invariant
                        rv.deps == Some(ds),
                        k <= ds@.len(),
                        parsed.deep_view().len() == k as int,
                        forall|j: int|
                            0 <= j < k ==> dep_spec_of(#[trigger] ds.deep_view()[j]) is Some
                                && parsed.deep_view()[j] == dep_spec_of(ds.deep_view()[j]).unwrap(),
                    decreases ds@.len() - k,
                {
                    match DepSpec::parse(ds[k].as_str()) {
                        Some(d) => {
                            parsed.push(d);
                        },
                        None => {
                            proof {
                                assert(rv.deps == Some(ds));
                                assert(ds.deep_view().len() == ds@.len());
                                assert(ds.deep_view()[k as int] == ds@[k as int]@);
                                assert(dep_spec_of(ds.deep_view()[k as int]) is None);
                            }
                            return None;
                        },
                    }
                    k = k + 1;
                }
                proof {
                    assert(parsed.deep_view() =~= Seq::new(
                        ds.deep_view().len(),
                        |j: int| dep_spec_of(ds.deep_view()[j]).unwrap(),
                    ));
                }
                Some(parsed)
            },
        };
        Some(
            NamedRecipeVersion {
                name: target.to_owned(),
                version: version.to_owned(),
                source: rv.source,
                shell,
                deps,
                mkdirs: rv.mkdirs,
                build: rv.build,
                artefacts: rv.artefacts,
            },
        )
    }

    /// Split `target:version` at its first colon and resolve as
    /// `load_by_target_version`.  `None` when the name has no colon or
    /// the recipe's dependency strings fail to resolve.
    pub fn load_by_name(name: &str, rv: RecipeVersion) -> (r: Option<NamedRecipeVersion>)
        ensures
            match r {
                Some(n) => exists|i: int|
                    {
                        &&& 0 <= i < name@.len()
                        &&& name@[i] == ':'
                        &&& (forall|j: int| 0 <= j < i ==> name@[j] != ':')
                        &&& n.name@ == name@.take(i)
                        &&& n.version@ == name@.skip(i + 1)
                    },
                None => true,
            },
    {
        let cs = chars_of(name);
        let mut i: usize = 0;
        while i < cs.len()
            invariant
                cs@ == name@,
                i <= cs@.len(),
                forall|j: int| 0 <= j < i ==> cs@[j] != ':',
            decreases cs@.len() - i,
        {
            if cs[i] == ':' {
                let t = {
                    let mut t: Vec<char> = Vec::new();
                    let mut a: usize = 0;
                    while a < i
                        invariant
                            a <= i <= cs@.len(),
                            t@ == cs@.take(a as int),
                        decreases i - a,
                    {
                        t.push(cs[a]);
                        proof {
                            assert(cs@.take(a + 1) =~= cs@.take(a as int).push(cs@[a as int]));
                        }
                        a = a + 1;
                    }
                    t
                };
                let v = {
                    let mut v: Vec<char> = Vec::new();
                    let mut a: usize = i + 1;
                    while a < cs.len()
                        invariant
                            i + 1 <= a <= cs@.len(),
                            v@ == cs@.subrange(i + 1, a as int),
                        decreases cs@.len() - a,
                    {
                        v.push(cs[a]);
                        proof {
                            assert(cs@.subrange(i + 1, a + 1)
                                =~= cs@.subrange(i + 1, a as int).push(cs@[a as int]));
                        }
                        a = a + 1;
                    }
                    v
                };
                let target = string_of(&t);
                let vers = string_of(&v);
                return Self::load_by_target_version(target.as_str(), vers.as_str(), rv);
            }
            i = i + 1;
        }
        None
    }
}

} // verus!
