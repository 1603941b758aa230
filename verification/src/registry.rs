//! The script registry: the authoritative, ordered script list of one
//! session.
//!
//! A load merges the build-time bundled sources with the files of the user
//! scripts directory, parses each with the metadata parser, skips every
//! source whose metadata does not parse, sorts the survivors by name under
//! a bytewise ordinal comparison (ties keep no promised order), and assigns
//! dense ids `0 .. n-1` in sorted order. A failure to create or read the
//! user directory degrades the load to bundled-only and is reported as a
//! non-fatal diagnostic; a malformed file only ever skips itself.
//!
//! The registry is rebuilt as a whole: `reload` swaps in a complete new
//! generation, and ids of the old generation are stale afterwards.

use vstd::prelude::*;
use vstd::multiset::Multiset;
use crate::metadata::{
    spec_parse, parse, opt_bytes, MetaSpec, ParseError, ScriptMetadata,
};

verus! {

broadcast use vstd::multiset::group_multiset_axioms;

/// Where a script came from.
#[derive(Clone, Copy, Debug, PartialEq, Eq, Structural)]
pub enum Provenance {
    /// Fixed at build time; parse failures are skipped, never fatal.
    Bundled,
    /// Read from the user scripts directory.
    User,
}

/// Non-fatal failure on the user scripts directory.
#[derive(Clone, Copy, Debug, PartialEq, Eq, Structural)]
pub enum DirectoryError {
    CreateFailed,
    ReadFailed,
}

/// At most one aggregated diagnostic per load attempt.
#[derive(Clone, Copy, Debug, PartialEq, Eq, Structural)]
pub enum LoadDiagnostic {
    Directory(DirectoryError),
}

impl DirectoryError {
    /// Human-readable account of the failure.
    pub fn message(&self) -> (r: String)
        ensures
            r@ == (match *self {
                DirectoryError::CreateFailed =>
                    "Can't create scripts directory, check your permissions"@,
                DirectoryError::ReadFailed =>
                    "Can't read scripts directory, check your permissions"@,
            }),
    {
        match self {
            DirectoryError::CreateFailed => "Can't create scripts directory, check your permissions".to_owned(),
            DirectoryError::ReadFailed => "Can't read scripts directory, check your permissions".to_owned(),
        }
    }
}

impl LoadDiagnostic {
    /// Human-readable account of the diagnostic.
    pub fn message(&self) -> (r: String)
        ensures
            r@ == (match *self {
                LoadDiagnostic::Directory(DirectoryError::CreateFailed) =>
                    "Can't create scripts directory, check your permissions"@,
                LoadDiagnostic::Directory(DirectoryError::ReadFailed) =>
                    "Can't read scripts directory, check your permissions"@,
            }),
    {
        match self {
            LoadDiagnostic::Directory(e) => e.message(),
        }
    }
}

/// One script of the current generation.
pub struct Script {
    /// Dense id within one load generation; stale after a reload.
    pub id: usize,
    /// Raw source text, immutable after the load.
    pub source: Vec<u8>,
    pub provenance: Provenance,
    /// Path the source was read from; absent for bundled scripts.
    pub origin: Option<Vec<u8>>,
    pub metadata: ScriptMetadata,
}

impl Script {
    /// The stored metadata is exactly what the stored source parses to.
    pub open spec fn wf(self) -> bool {
        spec_parse(self.source@) == Ok::<MetaSpec, ParseError>(self.metadata@)
    }

    /// Parses `source` and wraps it; the id is assigned by the registry
    /// once the whole generation is sorted.
    pub fn from_source(source: Vec<u8>, provenance: Provenance, origin: Option<Vec<u8>>) -> (r:
        Result<Script, ParseError>)
        ensures
            match spec_parse(source@) {
                Ok(m) => r is Ok && (r->Ok_0).wf() && (r->Ok_0).source@ == source@
                    && (r->Ok_0).metadata@ == m && (r->Ok_0).provenance == provenance
                    && opt_bytes((r->Ok_0).origin) == opt_bytes(origin) && (r->Ok_0).id == 0,
                Err(e) => r is Err && r->Err_0 == e,
            },
    {
        match parse(&source) {
            Ok(md) => Ok(Script { id: 0, source, provenance, origin, metadata: md }),
            Err(e) => Err(e),
        }
    }
}

/// Bytewise ordinal order on names: shorter prefix first, else first
/// differing byte decides.
pub open spec fn lex_le(a: Seq<u8>, b: Seq<u8>) -> bool
    decreases a.len(),
{
    if a.len() == 0 {
        true
    } else if b.len() == 0 {
        false
    } else if a.first() < b.first() {
        true
    } else if a.first() > b.first() {
        false
    } else {
        lex_le(a.drop_first(), b.drop_first())
    }
}

pub proof fn lemma_lex_total(a: Seq<u8>, b: Seq<u8>)
    ensures
        lex_le(a, b) || lex_le(b, a),
    decreases a.len(),
{
    if a.len() > 0 && b.len() > 0 && a.first() == b.first() {
        lemma_lex_total(a.drop_first(), b.drop_first());
    }
}

pub proof fn lemma_lex_trans(a: Seq<u8>, b: Seq<u8>, c: Seq<u8>)
    requires
        lex_le(a, b),
        lex_le(b, c),
    ensures
        lex_le(a, c),
    decreases a.len(),
{
    if a.len() > 0 && b.len() > 0 && c.len() > 0 && a.first() == b.first() && b.first()
        == c.first() {
        lemma_lex_trans(a.drop_first(), b.drop_first(), c.drop_first());
    }
}

/// What one registry entry contributes to the account of a load: its
/// source text, its provenance and its origin path.
pub open spec fn script_item(s: Script) -> (Seq<u8>, Provenance, Option<Seq<u8>>) {
    (s.source@, s.provenance, opt_bytes(s.origin))
}

pub open spec fn reg_items(ss: Seq<Script>) -> Multiset<(Seq<u8>, Provenance, Option<Seq<u8>>)>
    decreases ss.len(),
{
    if ss.len() == 0 {
        Multiset::empty()
    } else {
        reg_items(ss.drop_first()).insert(script_item(ss.first()))
    }
}

/// The bundled sources that parse, as registry items.
pub open spec fn bundled_items(ss: Seq<Seq<u8>>) -> Multiset<
    (Seq<u8>, Provenance, Option<Seq<u8>>),
>
    decreases ss.len(),
{
    if ss.len() == 0 {
        Multiset::empty()
    } else {
        let rest = bundled_items(ss.drop_first());
        if spec_parse(ss.first()) is Ok {
            rest.insert((ss.first(), Provenance::Bundled, Option::<Seq<u8>>::None))
        } else {
            rest
        }
    }
}

/// The user files (path, contents) whose contents parse, as registry items.
pub open spec fn user_items(fs: Seq<(Seq<u8>, Seq<u8>)>) -> Multiset<
    (Seq<u8>, Provenance, Option<Seq<u8>>),
>
    decreases fs.len(),
{
    if fs.len() == 0 {
        Multiset::empty()
    } else {
        let rest = user_items(fs.drop_first());
        if spec_parse(fs.first().1) is Ok {
            rest.insert((fs.first().1, Provenance::User, Some(fs.first().0)))
        } else {
            rest
        }
    }
}

/// How many of these sources carry well-formed metadata.
pub open spec fn count_wf(ss: Seq<Seq<u8>>) -> int
    decreases ss.len(),
{
    if ss.len() == 0 {
        0
    } else {
        (if spec_parse(ss.first()) is Ok {
            1int
        } else {
            0int
        }) + count_wf(ss.drop_first())
    }
}

pub open spec fn count_wf_user(fs: Seq<(Seq<u8>, Seq<u8>)>) -> int
    decreases fs.len(),
{
    if fs.len() == 0 {
        0
    } else {
        (if spec_parse(fs.first().1) is Ok {
            1int
        } else {
            0int
        }) + count_wf_user(fs.drop_first())
    }
}

pub open spec fn views_of(vs: Seq<Vec<u8>>) -> Seq<Seq<u8>> {
    vs.map_values(|v: Vec<u8>| v@)
}

pub open spec fn file_views(fs: Seq<(Vec<u8>, Vec<u8>)>) -> Seq<(Seq<u8>, Seq<u8>)> {
    fs.map_values(|pc: (Vec<u8>, Vec<u8>)| (pc.0@, pc.1@))
}

pub open spec fn sorted_by_name(ss: Seq<Script>) -> bool {
    forall|i: int, j: int|
        0 <= i < j < ss.len() ==> lex_le(
            #[trigger] ss[i].metadata@.name,
            #[trigger] ss[j].metadata@.name,
        )
}

pub open spec fn all_wf(ss: Seq<Script>) -> bool {
    forall|i: int| 0 <= i < ss.len() ==> (#[trigger] ss[i]).wf()
}

proof fn lemma_reg_items_insert(ss: Seq<Script>, pos: int, x: Script)
    requires
        0 <= pos <= ss.len(),
    ensures
        reg_items(ss.insert(pos, x)) == reg_items(ss).insert(script_item(x)),
    decreases pos,
{
    ss.insert_ensures(pos, x);
    let t = ss.insert(pos, x);
    if pos == 0 {
        assert(t.first() == x);
        assert(t.drop_first() =~= ss);
    } else {
        assert(t.first() == ss.first());
        assert(t.drop_first() =~= ss.drop_first().insert(pos - 1, x)) by {
            ss.drop_first().insert_ensures(pos - 1, x);
        }
        lemma_reg_items_insert(ss.drop_first(), pos - 1, x);
        assert(reg_items(ss.drop_first()).insert(script_item(x)).insert(
            script_item(ss.first()),
        ) =~= reg_items(ss.drop_first()).insert(script_item(ss.first())).insert(script_item(x)));
    }
}

proof fn lemma_reg_items_congruent(a: Seq<Script>, b: Seq<Script>)
    requires
        a.len() == b.len(),
        forall|i: int| 0 <= i < a.len() ==> script_item(#[trigger] a[i]) == script_item(b[i]),
    ensures
        reg_items(a) == reg_items(b),
    decreases a.len(),
{
    if a.len() > 0 {
        assert(forall|i: int|
            0 <= i < a.drop_first().len() ==> script_item(#[trigger] a.drop_first()[i])
                == script_item(b.drop_first()[i])) by {
            assert(forall|i: int|
                0 <= i < a.drop_first().len() ==> a.drop_first()[i] == a[i + 1]
                    && b.drop_first()[i] == b[i + 1]);
        }
        lemma_reg_items_congruent(a.drop_first(), b.drop_first());
        assert(script_item(a.first()) == script_item(b.first()));
    }
}

/// Every item of the account is carried by some entry.
pub proof fn lemma_reg_items_member(ss: Seq<Script>, item: (Seq<u8>, Provenance, Option<Seq<u8>>))
    requires
        reg_items(ss).count(item) > 0,
    ensures
        exists|j: int| 0 <= j < ss.len() && script_item(#[trigger] ss[j]) == item,
    decreases ss.len(),
{
    if ss.len() > 0 {
        if script_item(ss.first()) == item {
            assert(script_item(ss[0]) == item);
        } else {
            lemma_reg_items_member(ss.drop_first(), item);
            let j = choose|j: int|
                0 <= j < ss.drop_first().len() && script_item(#[trigger] ss.drop_first()[j])
                    == item;
            assert(ss.drop_first()[j] == ss[j + 1]);
        }
    }
}

fn name_le(a: &Vec<u8>, b: &Vec<u8>) -> (r: bool)
    ensures
        r == lex_le(a@, b@),
{
    let mut i: usize = 0;
    proof {
        assert(a@.skip(0) =~= a@);
        assert(b@.skip(0) =~= b@);
    }
    loop
        invariant
            i <= a@.len(),
            i <= b@.len(),
            lex_le(a@, b@) == lex_le(a@.skip(i as int), b@.skip(i as int)),
        decreases a@.len() - i,
    {
        if i >= a.len() {
            return true;
        }
        if i >= b.len() {
            return false;
        }
        let x = a[i];
        let y = b[i];
        if x < y {
            return true;
        }
        if x > y {
            return false;
        }
        proof {
            assert(a@.skip(i as int).drop_first() =~= a@.skip(i as int + 1));
            assert(b@.skip(i as int).drop_first() =~= b@.skip(i as int + 1));
        }
        i = i + 1;
    }
}

fn insert_sorted(v: &mut Vec<Script>, x: Script)
    requires
        sorted_by_name(old(v)@),
        all_wf(old(v)@),
        x.wf(),
    ensures
        sorted_by_name(final(v)@),
        all_wf(final(v)@),
        final(v)@.len() == old(v)@.len() + 1,
        reg_items(final(v)@) == reg_items(old(v)@).insert(script_item(x)),
{
    let ghost s0 = v@;
    let ghost xn = x.metadata@.name;
    let mut pos: usize = 0;
    while pos < v.len() && name_le(&v[pos].metadata.name, &x.metadata.name)
        invariant
            pos <= v@.len(),
            v@ == s0,
            xn == x.metadata@.name,
            forall|k: int| 0 <= k < pos ==> lex_le((#[trigger] v@[k]).metadata@.name, xn),
        decreases v@.len() - pos,
    {
        proof {
            assert(lex_le((v@[pos as int]).metadata@.name, xn));
        }
        pos = pos + 1;
    }
    proof {
        assert(forall|k: int| pos <= k < s0.len() ==> lex_le(xn, (#[trigger] s0[k]).metadata@.name))
            by {
            if pos < s0.len() {
                lemma_lex_total(s0[pos as int].metadata@.name, xn);
                assert forall|k: int| pos <= k < s0.len() implies lex_le(
                    xn,
                    (#[trigger] s0[k]).metadata@.name,
                ) by {
                    if k > pos {
                        lemma_lex_trans(
                            xn,
                            s0[pos as int].metadata@.name,
                            s0[k].metadata@.name,
                        );
                    }
                }
            }
        }
        s0.insert_ensures(pos as int, x);
        lemma_reg_items_insert(s0, pos as int, x);
    }
    v.insert(pos, x);
    proof {
        let s1 = v@;
        assert forall|i: int, j: int| 0 <= i < j < s1.len() implies lex_le(
            (#[trigger] s1[i]).metadata@.name,
            (#[trigger] s1[j]).metadata@.name,
        ) by {
            if j < pos {
            } else if i < pos && j == pos {
            } else if i < pos && j > pos {
                if i < j - 1 {
                } else {
                    lemma_lex_trans(s0[i].metadata@.name, xn, s0[j - 1].metadata@.name);
                }
            } else if i == pos {
            } else {
            }
        }
        assert(all_wf(s1)) by {
            assert(forall|k: int| 0 <= k < pos ==> s1[k] == s0[k]);
            assert(forall|k: int| pos < k < s1.len() ==> s1[k] == s0[k - 1]);
        }
    }
}

fn sort_by_name(input: Vec<Script>) -> (r: Vec<Script>)
    requires
        all_wf(input@),
    ensures
        sorted_by_name(r@),
        all_wf(r@),
        r@.len() == input@.len(),
        reg_items(r@) == reg_items(input@),
{
    let ghost orig = input@;
    let mut rem = input;
    let mut out: Vec<Script> = Vec::new();
    while rem.len() > 0
        invariant
            all_wf(rem@),
            all_wf(out@),
            sorted_by_name(out@),
            out@.len() + rem@.len() == orig.len(),
            reg_items(out@).add(reg_items(rem@)) == reg_items(orig),
        decreases rem@.len(),
    {
        let ghost rem0 = rem@;
        let ghost out0 = out@;
        let x = rem.remove(0);
        proof {
            assert(rem@ =~= rem0.drop_first());
            assert(x == rem0.first());
            assert(all_wf(rem@)) by {
                assert(forall|k: int| 0 <= k < rem@.len() ==> rem@[k] == rem0[k + 1]);
            }
        }
        insert_sorted(&mut out, x);
        proof {
            assert(reg_items(out@).add(reg_items(rem@)) =~= reg_items(out0).add(
                reg_items(rem0),
            ));
        }
    }
    out
}

fn assign_ids(input: Vec<Script>) -> (r: Vec<Script>)
    ensures
        r@.len() == input@.len(),
        forall|i: int|
            0 <= i < r@.len() ==> #[trigger] r@[i] == (Script { id: i as usize, ..input@[i] }),
        forall|i: int| 0 <= i < r@.len() ==> (#[trigger] r@[i]).id == i,
{
    let ghost orig = input@;
    let mut rem = input;
    let mut out: Vec<Script> = Vec::new();
    while rem.len() > 0
        invariant
            out@.len() + rem@.len() == orig.len(),
            rem@ =~= orig.skip(out@.len() as int),
            forall|k: int|
                0 <= k < out@.len() ==> #[trigger] out@[k] == (Script {
                    id: k as usize,
                    ..orig[k]
                }),
            forall|k: int| 0 <= k < out@.len() ==> (#[trigger] out@[k]).id == k,
        decreases rem@.len(),
    {
        let ghost rem0 = rem@;
        let ghost n = out@.len() as int;
        let mut x = rem.remove(0);
        proof {
            assert(rem@ =~= rem0.drop_first());
            assert(x == orig[n]);
            assert(rem@ =~= orig.skip(n + 1));
        }
        x.id = out.len();
        out.push(x);
    }
    out
}

/// The ordered script list of one load generation: well-formed entries,
/// sorted by name, with dense ids equal to their positions.
pub struct ScriptRegistry {
    pub scripts: Vec<Script>,
}

impl ScriptRegistry {
    pub open spec fn wf(self) -> bool {
        &&& all_wf(self.scripts@)
        &&& sorted_by_name(self.scripts@)
        &&& forall|i: int| 0 <= i < self.scripts@.len() ==> (#[trigger] self.scripts@[i]).id == i
    }

    /// An empty generation, before any load.
    pub fn new() -> (r: ScriptRegistry)
        ensures
            r.wf(),
            r.scripts@.len() == 0,
    {
        ScriptRegistry { scripts: Vec::new() }
    }

    pub fn len(&self) -> (r: usize)
        ensures
            r == self.scripts@.len(),
    {
        self.scripts.len()
    }

    /// The current generation's script under this id, if the id is live.
    pub fn get_by_id(&self, id: usize) -> (r: Option<&Script>)
        ensures
            id < self.scripts@.len() ==> r is Some && *r->Some_0 == self.scripts@[id as int],
            id >= self.scripts@.len() ==> r is None,
    {
        if id < self.scripts.len() {
            Some(&self.scripts[id])
        } else {
            None
        }
    }

    /// Repeats the full load and replaces the generation as a whole;
    /// previously issued ids become stale.
    pub fn reload(&mut self, bundled: Vec<Vec<u8>>, user: Result<Vec<(Vec<u8>, Vec<u8>)>, DirectoryError>) -> (diag: Option<LoadDiagnostic>)
        ensures
            loads_from(
                *final(self),
                views_of(bundled@),
                match user {
                    Ok(fs) => Some(file_views(fs@)),
                    Err(_) => None,
                },
            ),
            diag == (match user {
                Ok(_) => Option::<LoadDiagnostic>::None,
                Err(e) => Some(LoadDiagnostic::Directory(e)),
            }),
    {
        let (reg, diag) = load_all(bundled, user);
        *self = reg;
        diag
    }
}

/// What a finished load guarantees: a well-formed registry holding exactly
/// the well-formed bundled sources plus, when the directory was readable,
/// the well-formed user files, each with its provenance and origin.
pub open spec fn loads_from(
    reg: ScriptRegistry,
    bundled: Seq<Seq<u8>>,
    user: Option<Seq<(Seq<u8>, Seq<u8>)>>,
) -> bool {
    &&& reg.wf()
    &&& reg_items(reg.scripts@) == bundled_items(bundled).add(
        match user {
            Some(fs) => user_items(fs),
            None => Multiset::empty(),
        },
    )
    &&& reg.scripts@.len() == count_wf(bundled) + (match user {
        Some(fs) => count_wf_user(fs),
        None => 0int,
    })
}

/// One full load: bundled sources first, then the user directory's files
/// (already read by the caller; `Err` stands for a directory that could
/// not be created or read). Sources that fail to parse are skipped, never
/// fatal; a directory failure degrades to bundled-only with a diagnostic.
pub fn load_all(bundled: Vec<Vec<u8>>, user: Result<Vec<(Vec<u8>, Vec<u8>)>, DirectoryError>) -> (r:
    (ScriptRegistry, Option<LoadDiagnostic>))
    ensures
        loads_from(
            r.0,
            views_of(bundled@),
            match user {
                Ok(fs) => Some(file_views(fs@)),
                Err(_) => None,
            },
        ),
        r.1 == (match user {
            Ok(_) => Option::<LoadDiagnostic>::None,
            Err(e) => Some(LoadDiagnostic::Directory(e)),
        }),
{
    let ghost bview = views_of(bundled@);
    let mut scripts: Vec<Script> = Vec::new();
    let mut rem = bundled;
    while rem.len() > 0
        invariant
            all_wf(scripts@),
            reg_items(scripts@).add(bundled_items(views_of(rem@))) == bundled_items(bview),
            scripts@.len() + count_wf(views_of(rem@)) == count_wf(bview),
        decreases rem@.len(),
    {
        let ghost rem0 = views_of(rem@);
        let ghost sc0 = scripts@;
        let src = rem.remove(0);
        proof {
            assert(views_of(rem@) =~= rem0.drop_first());
            assert(src@ == rem0.first());
        }
        match Script::from_source(src, Provenance::Bundled, None) {
            Ok(s) => {
                scripts.push(s);
                proof {
                    assert(scripts@ =~= sc0.insert(sc0.len() as int, s));
                    lemma_reg_items_insert(sc0, sc0.len() as int, s);
                    assert(all_wf(scripts@)) by {
                        assert(forall|k: int| 0 <= k < sc0.len() ==> scripts@[k] == sc0[k]);
                    }
                    assert(reg_items(scripts@).add(bundled_items(views_of(rem@)))
                        =~= reg_items(sc0).add(bundled_items(rem0)));
                }
            },
            Err(_) => {},
        }
    }
    proof {
        assert(bundled_items(views_of(rem@)) =~= Multiset::empty());
        assert(reg_items(scripts@) =~= bundled_items(bview));
    }
    let ghost user0 = user;
    let diag: Option<LoadDiagnostic>;
    let mut user_files: Vec<(Vec<u8>, Vec<u8>)>;
    match user {
        Ok(fs) => {
            user_files = fs;
            diag = None;
        },
        Err(e) => {
            user_files = Vec::new();
            diag = Some(LoadDiagnostic::Directory(e));
        },
    }
    let ghost had_user = diag is None;
    let ghost uview = file_views(user_files@);
    let ghost after_bundled = scripts@;
    while user_files.len() > 0
        invariant
            all_wf(scripts@),
            reg_items(scripts@).add(user_items(file_views(user_files@))) == reg_items(
                after_bundled,
            ).add(user_items(uview)),
            scripts@.len() + count_wf_user(file_views(user_files@)) == after_bundled.len()
                + count_wf_user(uview),
        decreases user_files@.len(),
    {
        let ghost rem0 = file_views(user_files@);
        let ghost sc0 = scripts@;
        let (path, contents) = user_files.remove(0);
        proof {
            assert(file_views(user_files@) =~= rem0.drop_first());
            assert((path@, contents@) == rem0.first());
        }
        match Script::from_source(contents, Provenance::User, Some(path)) {
            Ok(s) => {
                scripts.push(s);
                proof {
                    assert(scripts@ =~= sc0.insert(sc0.len() as int, s));
                    lemma_reg_items_insert(sc0, sc0.len() as int, s);
                    assert(all_wf(scripts@)) by {
                        assert(forall|k: int| 0 <= k < sc0.len() ==> scripts@[k] == sc0[k]);
                    }
                    assert(reg_items(scripts@).add(user_items(file_views(user_files@)))
                        =~= reg_items(sc0).add(user_items(rem0)));
                }
            },
            Err(_) => {},
        }
    }
    proof {
        assert(user_items(file_views(user_files@)) =~= Multiset::empty());
        assert(reg_items(scripts@) =~= reg_items(after_bundled).add(user_items(uview)));
        match user0 {
            Ok(fs) => {
                assert(uview == file_views(fs@));
            },
            Err(_) => {
                assert(uview =~= Seq::<(Seq<u8>, Seq<u8>)>::empty());
                assert(user_items(uview) =~= Multiset::empty());
                assert(reg_items(scripts@) =~= bundled_items(bview).add(Multiset::empty()));
            },
        }
    }
    let sorted = sort_by_name(scripts);
    let with_ids = assign_ids(sorted);
    proof {
        assert(forall|i: int|
            0 <= i < with_ids@.len() ==> script_item(#[trigger] with_ids@[i]) == script_item(
                sorted@[i],
            ));
        lemma_reg_items_congruent(with_ids@, sorted@);
        assert(all_wf(with_ids@)) by {
            assert(forall|i: int|
                0 <= i < with_ids@.len() ==> (#[trigger] with_ids@[i]).source == sorted@[i].source
                    && with_ids@[i].metadata == sorted@[i].metadata);
        }
        assert(sorted_by_name(with_ids@)) by {
            assert(forall|i: int|
                0 <= i < with_ids@.len() ==> (#[trigger] with_ids@[i]).metadata
                    == sorted@[i].metadata);
        }
    }
    proof {
        let ghost ureq = match user0 {
            Ok(fs) => Some(file_views(fs@)),
            Err(_) => None::<Seq<(Seq<u8>, Seq<u8>)>>,
        };
        let ghost ums = match ureq {
            Some(fs) => user_items(fs),
            None => Multiset::empty(),
        };
        assert(reg_items(with_ids@) == reg_items(sorted@));
        assert(reg_items(with_ids@) == bundled_items(bview).add(ums));
        assert(with_ids@.len() == count_wf(bview) + (match ureq {
            Some(fs) => count_wf_user(fs),
            None => 0int,
        }));
        assert(forall|i: int|
            0 <= i < with_ids@.len() ==> (#[trigger] with_ids@[i]).id == i);
    }
    (ScriptRegistry { scripts: with_ids }, diag)
}


proof fn lemma_reg_items_contains_self(ss: Seq<Script>, i: int)
    requires
        0 <= i < ss.len(),
    ensures
        reg_items(ss).count(script_item(ss[i])) > 0,
    decreases ss.len(),
{
    if i == 0 {
        assert(ss[0] == ss.first());
    } else {
        lemma_reg_items_contains_self(ss.drop_first(), i - 1);
        assert(ss.drop_first()[i - 1] == ss[i]);
    }
}

/// Law: a load with these bundled sources and this readable user listing
/// yields exactly one entry per well-formed source, with dense ids
/// `0 .. n-1` assigned in ascending name order.
pub proof fn lemma_load_shape(
    reg: ScriptRegistry,
    bundled: Seq<Seq<u8>>,
    files: Seq<(Seq<u8>, Seq<u8>)>,
)
    requires
        loads_from(reg, bundled, Some(files)),
    ensures
        reg.scripts@.len() == count_wf(bundled) + count_wf_user(files),
        forall|i: int| 0 <= i < reg.scripts@.len() ==> (#[trigger] reg.scripts@[i]).id == i,
        sorted_by_name(reg.scripts@),
{
}

/// Law: a user file whose metadata does not parse contributes nothing to a
/// load; appending it to the listing changes neither the loaded count nor
/// the loaded items.
pub proof fn lemma_malformed_user_file_harmless(
    files: Seq<(Seq<u8>, Seq<u8>)>,
    bad: (Seq<u8>, Seq<u8>),
)
    requires
        spec_parse(bad.1) is Err,
    ensures
        user_items(files.push(bad)) == user_items(files),
        count_wf_user(files.push(bad)) == count_wf_user(files),
    decreases files.len(),
{
    if files.len() == 0 {
        assert(files.push(bad).first() == bad);
        assert(files.push(bad).drop_first() =~= files);
    } else {
        assert(files.push(bad).first() == files.first());
        assert(files.push(bad).drop_first() =~= files.drop_first().push(bad));
        lemma_malformed_user_file_harmless(files.drop_first(), bad);
    }
}

/// Law: a malformed user script file never reduces the loaded count below
/// the number of well-formed scripts present, and the load still succeeds
/// with the same entries.
pub proof fn lemma_malformed_never_reduces(
    reg1: ScriptRegistry,
    reg2: ScriptRegistry,
    bundled: Seq<Seq<u8>>,
    files: Seq<(Seq<u8>, Seq<u8>)>,
    bad: (Seq<u8>, Seq<u8>),
)
    requires
        spec_parse(bad.1) is Err,
        loads_from(reg1, bundled, Some(files)),
        loads_from(reg2, bundled, Some(files.push(bad))),
    ensures
        reg2.scripts@.len() == reg1.scripts@.len(),
        reg_items(reg2.scripts@) == reg_items(reg1.scripts@),
{
    lemma_malformed_user_file_harmless(files, bad);
}

/// Law: reload is idempotent on unchanged inputs. Two loads of the same
/// sources carry the same items, every entry of one generation recurs in
/// the other with the same source and metadata, and each generation's ids
/// are a fresh dense range; id equality across generations is not promised.
pub proof fn lemma_reload_idempotent(
    r1: ScriptRegistry,
    r2: ScriptRegistry,
    bundled: Seq<Seq<u8>>,
    user: Option<Seq<(Seq<u8>, Seq<u8>)>>,
)
    requires
        loads_from(r1, bundled, user),
        loads_from(r2, bundled, user),
    ensures
        reg_items(r1.scripts@) == reg_items(r2.scripts@),
        r1.scripts@.len() == r2.scripts@.len(),
        forall|i: int|
            0 <= i < r1.scripts@.len() ==> exists|j: int|
                0 <= j < r2.scripts@.len() && (#[trigger] r1.scripts@[i]).source@
                    == r2.scripts@[j].source@ && r1.scripts@[i].metadata@
                    == r2.scripts@[j].metadata@,
        forall|i: int| 0 <= i < r1.scripts@.len() ==> (#[trigger] r1.scripts@[i]).id == i,
        forall|i: int| 0 <= i < r2.scripts@.len() ==> (#[trigger] r2.scripts@[i]).id == i,
{
    assert forall|i: int| 0 <= i < r1.scripts@.len() implies exists|j: int|
        0 <= j < r2.scripts@.len() && (#[trigger] r1.scripts@[i]).source@
            == r2.scripts@[j].source@ && r1.scripts@[i].metadata@
            == r2.scripts@[j].metadata@ by {
        lemma_reg_items_contains_self(r1.scripts@, i);
        lemma_reg_items_member(r2.scripts@, script_item(r1.scripts@[i]));
        let j = choose|j: int|
            0 <= j < r2.scripts@.len() && script_item(#[trigger] r2.scripts@[j]) == script_item(
                r1.scripts@[i],
            );
        assert(r1.scripts@[i].wf() && r2.scripts@[j].wf());
        assert(r1.scripts@[i].source@ == r2.scripts@[j].source@);
    }
}

} // verus!
