//! Archive extraction planning: one filter contract shared by the tar
//! and zip flavours, over an in-memory index of entries.
//!
//! The filter strips an archive-wide common prefix, applies the keep
//! list, rewrites `from` to `to`, and sanitises everything in between;
//! whatever survives is a safe relative path under the build root.
//! Includes are compared against entry paths with both sides
//! sanitised.

use vstd::prelude::*;
use crate::paths::{
    norm_comps, sanitize_parts, clean_stack, clean_component, join_path, split_path, dotdot,
    is_skippable, lemma_join_clean,
};
use crate::strutil::{chars_of, string_of, str_eq, split_char_exec, split_char};

verus! {

#[derive(Debug, PartialEq, Eq, Structural, Clone, Copy)]
pub enum ExtractError {
    /// An entry path escapes the build root.
    PathEscapes,
    /// The archive's common prefix is missing from an entry.
    PrefixMismatch,
    /// A keep-list pattern escapes the build root.
    BadInclude,
    /// The `from` rewrite escapes the build root.
    BadFrom,
    /// The `to` rewrite escapes the build root.
    BadTo,
    /// An entry does not start with the `from` rewrite.
    FromMismatch,
    /// A symbolic link with an absolute target is not implemented.
    AbsoluteSymlink,
    /// An archive with no entries has no common prefix to compute.
    EmptyArchive,
}

/// The first real component of a path: the first field that is not
/// empty, `.` or `..`.
pub open spec fn first_normal_from(fields: Seq<Seq<char>>, i: int) -> Option<Seq<char>>
    decreases fields.len() - i when 0 <= i <= fields.len()
{
    if i < 0 || i >= fields.len() {
        None
    } else if !is_skippable(fields[i]) && fields[i] != dotdot() {
        Some(fields[i])
    } else {
        first_normal_from(fields, i + 1)
    }
}

pub open spec fn first_component(s: Seq<char>) -> Option<Seq<char>> {
    first_normal_from(split_path(s), 0)
}

/// The shared prefix exposed to the filter: the first component of the
/// first entry, provided every entry starts with it.
pub open spec fn common_prefix_spec(paths: Seq<Seq<char>>) -> Option<Seq<char>> {
    if paths.len() == 0 {
        None
    } else {
        match first_component(paths[0]) {
            None => None,
            Some(c) => if forall|i: int|
                0 <= i < paths.len() ==> first_component(#[trigger] paths[i]) == Some(c) {
                Some(c)
            } else {
                None
            },
        }
    }
}

/// Whether some keep-list entry, sanitised, is a component prefix of the entry;
/// a listed path that escapes the root is an error.  Later entries are
/// not examined once one matches.
pub open spec fn incs_match(list: Seq<Seq<char>>, c: Seq<Seq<char>>, i: int) -> Result<
    bool,
    ExtractError,
>
    decreases list.len() - i when 0 <= i <= list.len()
{
    if i < 0 || i >= list.len() {
        Ok(false)
    } else {
        match norm_comps(list[i]) {
            None => Err(ExtractError::BadInclude),
            Some(ic) => if ic.is_prefix_of(c) {
                Ok(true)
            } else {
                incs_match(list, c, i + 1)
            },
        }
    }
}

/// Where an entry lands, if anywhere: sanitise, strip the common prefix
/// when `clean_root` asks for it, keep only included entries, replace
/// the `from` components by the `to` components, and join the rest.
pub open spec fn filter_spec(
    p: Seq<char>,
    prefix: Option<Seq<char>>,
    from: Seq<char>,
    to: Seq<char>,
    only_under: Option<Seq<Seq<char>>>,
    clean_root: bool,
) -> Result<Option<Seq<char>>, ExtractError> {
    match norm_comps(p) {
        None => Err(ExtractError::PathEscapes),
        Some(c0) => {
            let c1r: Result<Seq<Seq<char>>, ExtractError> = if clean_root && prefix is Some {
                if c0.len() > 0 && c0[0] == prefix.unwrap() {
                    Ok(c0.drop_first())
                } else {
                    Err(ExtractError::PrefixMismatch)
                }
            } else {
                Ok(c0)
            };
            match c1r {
                Err(e) => Err(e),
                Ok(c1) => {
                    let keep: Result<bool, ExtractError> = match only_under {
                        None => Ok(true),
                        Some(list) => incs_match(list, c1, 0),
                    };
                    match keep {
                        Err(e) => Err(e),
                        Ok(false) => Ok(None),
                        Ok(true) => match norm_comps(from) {
                            None => Err(ExtractError::BadFrom),
                            Some(f) => if f.is_prefix_of(c1) {
                                match norm_comps(to) {
                                    None => Err(ExtractError::BadTo),
                                    Some(t) => Ok(
                                        Some(join_path(t + c1.skip(f.len() as int))),
                                    ),
                                }
                            } else {
                                Err(ExtractError::FromMismatch)
                            },
                        },
                    }
                },
            }
        },
    }
}

/// A path that cannot leave the root it is joined onto: relative, with
/// no `..` component.
pub open spec fn safe_rel_path(q: Seq<char>) -> bool {
    &&& q.len() > 0 ==> q[0] != '/'
    &&& !split_path(q).contains(dotdot())
}

/// Path safety: every path the filter accepts is a safe relative path,
/// so `build_root.join(result)` stays within the build root.
pub proof fn lemma_filter_safe(
    p: Seq<char>,
    prefix: Option<Seq<char>>,
    from: Seq<char>,
    to: Seq<char>,
    only_under: Option<Seq<Seq<char>>>,
    clean_root: bool,
)
    ensures
        match filter_spec(p, prefix, from, to, only_under, clean_root) {
            Ok(Some(q)) => safe_rel_path(q),
            _ => true,
        },
{
    match filter_spec(p, prefix, from, to, only_under, clean_root) {
        Ok(Some(q)) => {
            let c0 = norm_comps(p).unwrap();
            crate::paths::lemma_split_path_no_sep(p);
            crate::paths::lemma_resolve_clean(
                crate::paths::split_path(p),
                crate::paths::is_absolute(p),
            );
            let c1: Seq<Seq<char>> = if clean_root && prefix is Some {
                c0.drop_first()
            } else {
                c0
            };
            assert(clean_stack(c1)) by {
                if clean_root && prefix is Some {
                    assert(forall|i: int|
                        0 <= i < c0.drop_first().len() ==> #[trigger] c0.drop_first()[i] == c0[i
                            + 1]);
                }
            }
            let f = norm_comps(from).unwrap();
            let t = norm_comps(to).unwrap();
            crate::paths::lemma_split_path_no_sep(to);
            crate::paths::lemma_resolve_clean(
                crate::paths::split_path(to),
                crate::paths::is_absolute(to),
            );
            let st = t + c1.skip(f.len() as int);
            assert(clean_stack(st)) by {
                assert(forall|i: int|
                    0 <= i < c1.skip(f.len() as int).len() ==> #[trigger] c1.skip(
                        f.len() as int,
                    )[i] == c1[i + f.len()]);
                assert(forall|i: int|
                    0 <= i < st.len() ==> clean_component(#[trigger] st[i])) by {
                    assert(forall|i: int|
                        0 <= i < t.len() ==> clean_component(#[trigger] t[i]));
                    assert(forall|i: int|
                        t.len() <= i < st.len() ==> st[i] == c1.skip(f.len() as int)[i - t.len()]);
                }
            }
            lemma_join_clean(st);
            if st.len() == 0 {
                assert(split_path(q) =~= seq![Seq::<char>::empty()]);
                assert(!split_path(q).contains(dotdot()));
            } else {
                assert(split_path(q) == st);
                assert(!st.contains(dotdot())) by {
                    assert(forall|i: int| 0 <= i < st.len() ==> #[trigger] st[i] != dotdot());
                }
            }
        },
        _ => {},
    }
}

/// The first real component of a path, as executable code.
fn first_component_exec(p: &str) -> (r: Option<String>)
    ensures
        r.deep_view() == first_component(p@),
{
    let cs = chars_of(p);
    let fields = split_char_exec(&cs, '/');
    proof {
        lemma_split_path_is_split_char(p@);
    }
    let ghost fv = fields@.map_values(|c: Vec<char>| c@);
    let mut i: usize = 0;
    while i < fields.len()
        invariant
            fv == fields@.map_values(|c: Vec<char>| c@),
            fv == split_path(p@),
            i <= fields@.len(),
            first_normal_from(fv, 0) == first_normal_from(fv, i as int),
        decreases fields@.len() - i,
    {
        let c = &fields[i];
        let skip = c.len() == 0 || (c.len() == 1 && c[0] == '.');
        let is_dd = c.len() == 2 && c[0] == '.' && c[1] == '.';
        proof {
            assert(fv[i as int] == fields@[i as int]@);
            if c.len() == 1 && c@[0] == '.' {
                assert(c@ =~= crate::paths::dot());
            }
            if c@ == crate::paths::dot() {
                assert(c@.len() == 1 && c@[0] == '.');
            }
            if is_dd {
                assert(c@ =~= dotdot());
            }
            if c@ == dotdot() {
                assert(c@.len() == 2 && c@[0] == '.' && c@[1] == '.');
            }
            assert(skip == is_skippable(fv[i as int]));
            assert(is_dd == (fv[i as int] == dotdot()));
        }
        if !skip && !is_dd {
            let copy = crate::strutil::copy_range(c, 0, c.len());
            proof {
                assert(copy@ =~= fv[i as int]);
            }
            return Some(string_of(&copy));
        }
        i = i + 1;
    }
    None
}

/// Splitting on `/` is the same field decomposition `split_path` uses.
proof fn lemma_split_path_is_split_char(s: Seq<char>)
    ensures
        split_path(s) == split_char(s, '/'),
    decreases s.len(),
{
    if s.len() > 0 {
        lemma_split_path_is_split_char(s.drop_last());
    }
}

/// Component-prefix test.
fn parts_prefix_of(a: &Vec<String>, b: &Vec<String>) -> (r: bool)
    ensures
        r == a.deep_view().is_prefix_of(b.deep_view()),
{
    if a.len() > b.len() {
        proof {
            assert(!a.deep_view().is_prefix_of(b.deep_view()));
        }
        return false;
    }
    let mut i: usize = 0;
    while i < a.len()
        invariant
            a@.len() <= b@.len(),
            a.deep_view().len() == a@.len(),
            b.deep_view().len() == b@.len(),
            i <= a@.len(),
            forall|j: int| 0 <= j < i ==> a.deep_view()[j] == b.deep_view()[j],
        decreases a@.len() - i,
    {
        proof {
            assert(a.deep_view()[i as int] == a@[i as int]@);
            assert(b.deep_view()[i as int] == b@[i as int]@);
        }
        if !str_eq(a[i].as_str(), b[i].as_str()) {
            proof {
                assert(!a.deep_view().is_prefix_of(b.deep_view()));
            }
            return false;
        }
        i = i + 1;
    }
    proof {
        assert(a.deep_view().is_prefix_of(b.deep_view())) by {
            assert(a.deep_view() =~= b.deep_view().subrange(0, a.deep_view().len() as int));
        }
    }
    true
}

/// Whether any listed path, sanitised, is a component prefix of `c`.
fn incs_match_exec(list: &Vec<String>, c: &Vec<String>) -> (r: Result<bool, ExtractError>)
    ensures
        match r {
            Ok(b) => incs_match(list.deep_view(), c.deep_view(), 0) == Ok::<bool, ExtractError>(b),
            Err(e) => incs_match(list.deep_view(), c.deep_view(), 0) == Err::<bool, ExtractError>(
                e,
            ),
        },
{
    let mut i: usize = 0;
    while i < list.len()
        invariant
            i <= list@.len(),
            list.deep_view().len() == list@.len(),
            incs_match(list.deep_view(), c.deep_view(), 0) == incs_match(
                list.deep_view(),
                c.deep_view(),
                i as int,
            ),
        decreases list@.len() - i,
    {
        proof {
            assert(list.deep_view()[i as int] == list@[i as int]@);
        }
        match sanitize_parts(list[i].as_str()) {
            None => {
                return Err(ExtractError::BadInclude);
            },
            Some(ic) => {
                if parts_prefix_of(&ic, c) {
                    return Ok(true);
                }
            },
        }
        i = i + 1;
    }
    Ok(false)
}

/// The standard extraction filter.  `Ok(None)` skips the entry;
/// `Ok(Some(path))` extracts it at that safe relative path.
pub fn source_extract_filter(
    p: &str,
    prefix: &Option<String>,
    from: &str,
    to: &str,
    only_under: &Option<Vec<String>>,
    clean_root: bool,
) -> (r: Result<Option<String>, ExtractError>)
    ensures
        match r {
            Ok(Some(q)) => filter_spec(
                p@,
                prefix.deep_view(),
                from@,
                to@,
                only_under.deep_view(),
                clean_root,
            ) == Ok::<Option<Seq<char>>, ExtractError>(Some(q@)) && safe_rel_path(q@),
            Ok(None) => filter_spec(
                p@,
                prefix.deep_view(),
                from@,
                to@,
                only_under.deep_view(),
                clean_root,
            ) == Ok::<Option<Seq<char>>, ExtractError>(None),
            Err(e) => filter_spec(
                p@,
                prefix.deep_view(),
                from@,
                to@,
                only_under.deep_view(),
                clean_root,
            ) == Err::<Option<Seq<char>>, ExtractError>(e),
        },
{
    let c0 = match sanitize_parts(p) {
        Some(v) => v,
        None => {
            return Err(ExtractError::PathEscapes);
        },
    };
    let mut c1 = c0;
    if clean_root && prefix.is_some() {
        let pre: &String = match prefix {
            Some(x) => x,
            None => unreached(),
        };
        if c1.len() > 0 && str_eq(c1[0].as_str(), pre.as_str()) {
            proof {
                assert(c1.deep_view()[0] == c1@[0]@);
            }
            let ghost before = c1.deep_view();
            c1.remove(0);
            proof {
                assert(c1.deep_view() =~= before.drop_first());
            }
        } else {
            proof {
                assert(c1.deep_view().len() > 0 ==> c1.deep_view()[0] == c1@[0]@);
            }
            return Err(ExtractError::PrefixMismatch);
        }
    }
    let keep: bool = match only_under {
        None => true,
        Some(list) => {
            match incs_match_exec(list, &c1) {
                Ok(b) => b,
                Err(e) => {
                    return Err(e);
                },
            }
        },
    };
    if !keep {
        return Ok(None);
    }
    let f = match sanitize_parts(from) {
        Some(v) => v,
        None => {
            return Err(ExtractError::BadFrom);
        },
    };
    if !parts_prefix_of(&f, &c1) {
        return Err(ExtractError::FromMismatch);
    }
    let t = match sanitize_parts(to) {
        Some(v) => v,
        None => {
            return Err(ExtractError::BadTo);
        },
    };
    // Assemble `to` followed by the remainder of the entry.
    let mut st: Vec<String> = t;
    let mut k: usize = f.len();
    let ghost tv = st.deep_view();
    let ghost c1v = c1.deep_view();
    let ghost fl = f.deep_view().len();
    while k < c1.len()
        invariant
            c1v == c1.deep_view(),
            c1v.len() == c1@.len(),
            fl <= k <= c1@.len(),
            st.deep_view() == tv + c1v.subrange(fl as int, k as int),
        decreases c1@.len() - k,
    {
        proof {
            assert(c1v[k as int] == c1@[k as int]@);
        }
        let ghost before = st.deep_view();
        let piece = {
            let cc = chars_of(c1[k].as_str());
            string_of(&cc)
        };
        st.push(piece);
        proof {
            assert(st.deep_view() =~= before.push(c1v[k as int]));
            assert(tv + c1v.subrange(fl as int, k + 1) =~= (tv + c1v.subrange(
                fl as int,
                k as int,
            )).push(c1v[k as int]));
        }
        k = k + 1;
    }
    proof {
        assert(c1v.subrange(fl as int, c1v.len() as int) =~= c1v.skip(fl as int));
    }
    // Join with separators.
    let mut out: Vec<char> = Vec::new();
    let mut m: usize = 0;
    let ghost stv = st.deep_view();
    while m < st.len()
        invariant
            stv == st.deep_view(),
            stv.len() == st@.len(),
            m <= st@.len(),
            out@ == join_path(stv.take(m as int)),
        decreases st@.len() - m,
    {
        proof {
            assert(stv.take(m + 1).drop_last() =~= stv.take(m as int));
            assert(stv.take(m + 1).last() == stv[m as int]);
            assert(stv[m as int] == st@[m as int]@);
        }
        if m > 0 {
            out.push('/');
        }
        let cc = chars_of(st[m].as_str());
        crate::strutil::append_chars(&mut out, &cc);
        proof {
            let tk = stv.take(m + 1);
            if m == 0 {
                assert(tk.len() == 1);
                assert(join_path(tk) == tk[0]);
                assert(out@ =~= join_path(tk));
            } else {
                assert(join_path(tk) == join_path(tk.drop_last()) + seq!['/'] + tk.last());
                assert(out@ =~= join_path(tk));
            }
        }
        m = m + 1;
    }
    proof {
        assert(stv.take(stv.len() as int) =~= stv);
        lemma_filter_safe(p@, prefix.deep_view(), from@, to@, only_under.deep_view(), clean_root);
    }
    Ok(Some(string_of(&out)))
}

/// What one archive entry is, as far as extraction cares.
#[derive(Debug)]
pub enum EntryKind {
    File,
    Dir,
    Symlink { target: String },
}

pub ghost enum EntryKindV {
    File,
    Dir,
    Symlink { target: Seq<char> },
}

impl DeepView for EntryKind {
    type V = EntryKindV;

    open spec fn deep_view(&self) -> EntryKindV {
        match self {
            EntryKind::File => EntryKindV::File,
            EntryKind::Dir => EntryKindV::Dir,
            EntryKind::Symlink { target } => EntryKindV::Symlink { target: target@ },
        }
    }
}

#[derive(Debug)]
pub struct ArchiveEntry {
    pub path: String,
    pub kind: EntryKind,
    pub mode: Option<u32>,
}

pub ghost struct ArchiveEntryV {
    pub path: Seq<char>,
    pub kind: EntryKindV,
    pub mode: Option<u32>,
}

impl DeepView for ArchiveEntry {
    type V = ArchiveEntryV;

    open spec fn deep_view(&self) -> ArchiveEntryV {
        ArchiveEntryV { path: self.path@, kind: self.kind.deep_view(), mode: self.mode }
    }
}

/// An archive reduced to what extraction decides on: its entries in
/// order.  The bytes of each file stay with the caller, addressed by
/// entry index.
pub struct ArchiveIndex {
    pub entries: Vec<ArchiveEntry>,
}

/// One materialisation step.  `entry` is the index whose bytes or link
/// go at `target`, a safe path relative to the extraction root.
#[derive(Debug)]
pub enum ExtractAction {
    MakeDir { target: String },
    WriteFile { entry: usize, target: String },
    MakeSymlink { entry: usize, target: String, link: String },
    SetMode { target: String, mode: u32 },
}

pub ghost enum ExtractActionV {
    MakeDir { target: Seq<char> },
    WriteFile { entry: int, target: Seq<char> },
    MakeSymlink { entry: int, target: Seq<char>, link: Seq<char> },
    SetMode { target: Seq<char>, mode: u32 },
}

impl DeepView for ExtractAction {
    type V = ExtractActionV;

    open spec fn deep_view(&self) -> ExtractActionV {
        match self {
            ExtractAction::MakeDir { target } => ExtractActionV::MakeDir { target: target@ },
            ExtractAction::WriteFile { entry, target } => ExtractActionV::WriteFile {
                entry: *entry as int,
                target: target@,
            },
            ExtractAction::MakeSymlink { entry, target, link } => ExtractActionV::MakeSymlink {
                entry: *entry as int,
                target: target@,
                link: link@,
            },
            ExtractAction::SetMode { target, mode } => ExtractActionV::SetMode {
                target: target@,
                mode: *mode,
            },
        }
    }
}

pub open spec fn entry_paths(entries: Seq<ArchiveEntryV>) -> Seq<Seq<char>> {
    entries.map_values(|e: ArchiveEntryV| e.path)
}

/// The planned actions for the first `k` entries: the content actions
/// in entry order, and the mode actions applied after all of them so
/// that directories stay writable while their children appear.
pub open spec fn plan_spec(
    entries: Seq<ArchiveEntryV>,
    prefix: Option<Seq<char>>,
    from: Seq<char>,
    to: Seq<char>,
    only_under: Option<Seq<Seq<char>>>,
    clean_root: bool,
) -> Result<(Seq<ExtractActionV>, Seq<ExtractActionV>), ExtractError>
    decreases entries.len(),
{
    if entries.len() == 0 {
        Ok((Seq::empty(), Seq::empty()))
    } else {
        match plan_spec(entries.drop_last(), prefix, from, to, only_under, clean_root) {
            Err(e) => Err(e),
            Ok(acc) => {
                let e = entries.last();
                let idx = entries.len() - 1;
                match filter_spec(e.path, prefix, from, to, only_under, clean_root) {
                    Err(err) => Err(err),
                    Ok(None) => Ok(acc),
                    Ok(Some(t)) => {
                        let ma = match e.mode {
                            Some(m) => if !(e.kind is Symlink) {
                                acc.1.push(ExtractActionV::SetMode { target: t, mode: m })
                            } else {
                                acc.1
                            },
                            None => acc.1,
                        };
                        match e.kind {
                            EntryKindV::Dir => Ok(
                                (acc.0.push(ExtractActionV::MakeDir { target: t }), ma),
                            ),
                            EntryKindV::File => Ok(
                                (
                                    acc.0.push(
                                        ExtractActionV::WriteFile { entry: idx, target: t },
                                    ),
                                    ma,
                                ),
                            ),
                            EntryKindV::Symlink { target: l } => if l.len() > 0 && l[0] == '/' {
                                Err(ExtractError::AbsoluteSymlink)
                            } else {
                                Ok(
                                    (
                                        acc.0.push(
                                            ExtractActionV::MakeSymlink {
                                                entry: idx,
                                                target: t,
                                                link: l,
                                            },
                                        ),
                                        ma,
                                    ),
                                )
                            },
                        }
                    },
                }
            },
        }
    }
}

impl ArchiveIndex {
    /// The archive-wide common prefix, as the filter sees it.
    fn common_prefix(&self) -> (r: Option<String>)
        requires
            self.entries@.len() > 0,
        ensures
            r.deep_view() == common_prefix_spec(entry_paths(self.entries.deep_view())),
    {
        let ghost paths = entry_paths(self.entries.deep_view());
        proof {
            assert(paths.len() == self.entries@.len());
            assert(paths[0] == self.entries@[0].path@);
        }
        let c = match first_component_exec(self.entries[0].path.as_str()) {
            None => {
                return None;
            },
            Some(c) => c,
        };
        let mut i: usize = 0;
        while i < self.entries.len()
            invariant
                paths == entry_paths(self.entries.deep_view()),
                paths.len() == self.entries@.len(),
                paths.len() > 0,
                first_component(paths[0]) == Some(c@),
                i <= self.entries@.len(),
                forall|j: int| 0 <= j < i ==> first_component(#[trigger] paths[j]) == Some(c@),
            decreases self.entries@.len() - i,
        {
            proof {
                assert(paths[i as int] == self.entries@[i as int].path@);
            }
            let ci = first_component_exec(self.entries[i].path.as_str());
            let same = match &ci {
                Some(s) => str_eq(s.as_str(), c.as_str()),
                None => false,
            };
            if !same {
                proof {
                    assert(first_component(paths[i as int]) != Some(c@));
                }
                return None;
            }
            i = i + 1;
        }
        Some(c)
    }

    /// Plan the extraction of every entry through the standard filter.
    /// The returned actions are the content actions in entry order,
    /// followed by the mode actions.
    pub fn filter_extract(
        &self,
        from: &str,
        to: &str,
        only_under: &Option<Vec<String>>,
        clean_root: bool,
    ) -> (r: Result<Vec<ExtractAction>, ExtractError>)
        ensures
            self.entries@.len() == 0 ==> r == Err::<Vec<ExtractAction>, ExtractError>(
                ExtractError::EmptyArchive,
            ),
            self.entries@.len() > 0 ==> {
                let prefix = common_prefix_spec(entry_paths(self.entries.deep_view()));
                match r {
                    Ok(v) => plan_spec(
                        self.entries.deep_view(),
                        prefix,
                        from@,
                        to@,
                        only_under.deep_view(),
                        clean_root,
                    ) matches Ok(acc) && v.deep_view() == acc.0 + acc.1,
                    Err(e) => plan_spec(
                        self.entries.deep_view(),
                        prefix,
                        from@,
                        to@,
                        only_under.deep_view(),
                        clean_root,
                    ) == Err::<(Seq<ExtractActionV>, Seq<ExtractActionV>), ExtractError>(e),
                }
            },
    {
        if self.entries.len() == 0 {
            return Err(ExtractError::EmptyArchive);
        }
        let prefix = self.common_prefix();
        let ghost pv = prefix.deep_view();
        let ghost ev = self.entries.deep_view();
        let mut content: Vec<ExtractAction> = Vec::new();
        let mut modes: Vec<ExtractAction> = Vec::new();
        let mut i: usize = 0;
        proof {
            assert(ev.take(0) =~= Seq::<ArchiveEntryV>::empty());
            assert(content.deep_view() =~= Seq::<ExtractActionV>::empty());
            assert(modes.deep_view() =~= Seq::<ExtractActionV>::empty());
        }
        while i < self.entries.len()
            invariant
                ev == self.entries.deep_view(),
                ev.len() == self.entries@.len(),
                pv == prefix.deep_view(),
                pv == common_prefix_spec(entry_paths(ev)),
                i <= self.entries@.len(),
                plan_spec(ev.take(i as int), pv, from@, to@, only_under.deep_view(), clean_root)
                    == Ok::<(Seq<ExtractActionV>, Seq<ExtractActionV>), ExtractError>(
                    (content.deep_view(), modes.deep_view()),
                ),
            decreases self.entries@.len() - i,
        {
            proof {
                assert(ev.take(i + 1).drop_last() =~= ev.take(i as int));
                assert(ev.take(i + 1).last() == ev[i as int]);
                assert(ev[i as int] == self.entries@[i as int].deep_view());
            }
            let t_opt = match source_extract_filter(
                self.entries[i].path.as_str(),
                &prefix,
                from,
                to,
                only_under,
                clean_root,
            ) {
                Ok(x) => x,
                Err(e) => {
                    proof {
                        lemma_plan_extends_err(
                            ev,
                            i as int + 1,
                            pv,
                            from@,
                            to@,
                            only_under.deep_view(),
                            clean_root,
                        );
                    }
                    return Err(e);
                },
            };
            match t_opt {
                None => {},
                Some(target) => {
                    match &self.entries[i].kind {
                        EntryKind::Dir => {
                            let ghost cb = content.deep_view();
                            content.push(ExtractAction::MakeDir { target: target.clone() });
                            proof {
                                assert(content.deep_view() =~= cb.push(
                                    ExtractActionV::MakeDir { target: target@ },
                                ));
                            }
                        },
                        EntryKind::File => {
                            let ghost cb = content.deep_view();
                            content.push(
                                ExtractAction::WriteFile { entry: i, target: target.clone() },
                            );
                            proof {
                                assert(content.deep_view() =~= cb.push(
                                    ExtractActionV::WriteFile {
                                        entry: i as int,
                                        target: target@,
                                    },
                                ));
                            }
                        },
                        EntryKind::Symlink { target: link } => {
                            let lc = chars_of(link.as_str());
                            if lc.len() > 0 && lc[0] == '/' {
                                proof {
                                    lemma_plan_extends_err(
                                        ev,
                                        i as int + 1,
                                        pv,
                                        from@,
                                        to@,
                                        only_under.deep_view(),
                                        clean_root,
                                    );
                                }
                                return Err(ExtractError::AbsoluteSymlink);
                            }
                            let ghost cb = content.deep_view();
                            content.push(
                                ExtractAction::MakeSymlink {
                                    entry: i,
                                    target: target.clone(),
                                    link: link.clone(),
                                },
                            );
                            proof {
                                assert(content.deep_view() =~= cb.push(
                                    ExtractActionV::MakeSymlink {
                                        entry: i as int,
                                        target: target@,
                                        link: link@,
                                    },
                                ));
                            }
                        },
                    }
                    let is_symlink = match &self.entries[i].kind {
                        EntryKind::Symlink { .. } => true,
                        _ => false,
                    };
                    match self.entries[i].mode {
                        Some(m) => {
                            if !is_symlink {
                                let ghost mb = modes.deep_view();
                                modes.push(
                                    ExtractAction::SetMode { target: target.clone(), mode: m },
                                );
                                proof {
                                    assert(modes.deep_view() =~= mb.push(
                                        ExtractActionV::SetMode { target: target@, mode: m },
                                    ));
                                }
                            }
                        },
                        None => {},
                    }
                },
            }
            i = i + 1;
        }
        proof {
            assert(ev.take(ev.len() as int) =~= ev);
        }
        let mut out = content;
        append_actions(&mut out, modes);
        proof {
            assert(out.deep_view() =~= plan_spec(
                ev,
                pv,
                from@,
                to@,
                only_under.deep_view(),
                clean_root,
            ).unwrap().0 + plan_spec(
                ev,
                pv,
                from@,
                to@,
                only_under.deep_view(),
                clean_root,
            ).unwrap().1);
        }
        Ok(out)
    }
}

/// Move every action of `add` to the end of `out`.
fn append_actions(out: &mut Vec<ExtractAction>, add: Vec<ExtractAction>)
    ensures
        final(out).deep_view() == old(out).deep_view() + add.deep_view(),
{
    let mut add = add;
    let ghost addv = add.deep_view();
    let ghost base = out.deep_view();
    let ghost mut k: int = 0;
    proof {
        assert(addv.skip(0) =~= addv);
        assert(base + addv.take(0) =~= base);
    }
    while add.len() > 0
        invariant
            0 <= k <= addv.len(),
            add.deep_view() == addv.skip(k),
            add@.len() == addv.len() - k,
            out.deep_view() == base + addv.take(k),
        decreases add@.len(),
    {
        proof {
            assert(add.deep_view()[0] == add@[0].deep_view());
            assert(addv.skip(k)[0] == addv[k]);
        }
        let ghost ob = out.deep_view();
        let ghost ab = add.deep_view();
        let a = add.remove(0);
        out.push(a);
        proof {
            assert(add.deep_view() =~= ab.drop_first());
            assert(ab.drop_first() =~= addv.skip(k + 1));
            assert(out.deep_view() =~= ob.push(addv[k]));
            assert(base + addv.take(k + 1) =~= (base + addv.take(k)).push(addv[k]));
            k = k + 1;
        }
    }
    proof {
        assert(addv.take(addv.len() as int) =~= addv);
    }
}

/// Once planning fails on a prefix of the entries, it fails for the
/// whole archive with the same error.
proof fn lemma_plan_extends_err(
    entries: Seq<ArchiveEntryV>,
    k: int,
    prefix: Option<Seq<char>>,
    from: Seq<char>,
    to: Seq<char>,
    only_under: Option<Seq<Seq<char>>>,
    clean_root: bool,
)
    requires
        0 <= k <= entries.len(),
        plan_spec(entries.take(k), prefix, from, to, only_under, clean_root) is Err,
    ensures
        plan_spec(entries, prefix, from, to, only_under, clean_root) == plan_spec(
            entries.take(k),
            prefix,
            from,
            to,
            only_under,
            clean_root,
        ),
    decreases entries.len() - k,
{
    if k == entries.len() {
        assert(entries.take(k) =~= entries);
    } else {
        assert(entries.take(k + 1).drop_last() =~= entries.take(k));
        lemma_plan_extends_err(entries, k + 1, prefix, from, to, only_under, clean_root);
    }
}

} // verus!
