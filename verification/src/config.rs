//! The two configuration structures and their parsers.
//!
//! A registry document maps day numbers to project roots: a top-level
//! `days` node whose children each carry a `root` string property and one
//! positional integer, the day number. A run document describes one
//! project: `build` blocks of `run` nodes, `clean` blocks of `delete`
//! nodes, and a `test` block with at most one `run` node. Both parsers scan
//! the document once, in order, and stop at the first malformed element.

use vstd::prelude::*;

use std::collections::HashMap;

use crate::doc::{ChildView, EntryView, NodeView, ValueView, Entry, Value, entry_views};
use crate::doc::{doc_child_count, doc_child_entries, doc_child_name, doc_node_count,
    doc_node_has_children, doc_node_name, kdl_nodes};
use crate::errors::{Error, ErrorView};
use crate::fold::{fold_result, lemma_fold_poisoned, lemma_fold_result_error, lemma_fold_result_snoc};
use crate::program::{Program, ProgramView};
use crate::text::str_eq;

verus! {

/// The abstract value of a [`DayConfig`]: the project root path.
pub ghost struct DayConfigView {
    pub root: Seq<char>,
}

/// The project root registered for one day.
#[derive(Debug, Clone, PartialEq)]
pub struct DayConfig {
    pub root: String,
}

impl View for DayConfig {
    type V = DayConfigView;

    open spec fn view(&self) -> DayConfigView {
        DayConfigView { root: self.root@ }
    }
}

impl DayConfig {
    /// A day configuration rooted at `root`.
    pub fn new(root: String) -> (c: DayConfig)
        ensures
            c@.root == root@,
    {
        DayConfig { root }
    }
}

/// The registry: which project root belongs to which day.
#[derive(Debug, PartialEq)]
pub struct AdventConfig {
    pub days: HashMap<u8, DayConfig>,
}

impl View for AdventConfig {
    type V = Map<u8, DayConfigView>;

    open spec fn view(&self) -> Map<u8, DayConfigView> {
        self.days@.map_values(|d: DayConfig| d@)
    }
}

/// The abstract value of a [`RunConfig`].
pub ghost struct RunConfigView {
    pub build: Seq<ProgramView>,
    pub clean: Seq<Seq<char>>,
    pub test: Option<ProgramView>,
}

/// One project's run description: its build steps, the artifacts to clean
/// up, and at most one test program.
#[derive(Debug, PartialEq)]
pub struct RunConfig {
    pub build: Vec<Program>,
    pub clean: Vec<String>,
    pub test: Option<Program>,
}

impl View for RunConfig {
    type V = RunConfigView;

    open spec fn view(&self) -> RunConfigView {
        RunConfigView {
            build: self.build@.map_values(|p: Program| p@),
            clean: self.clean@.map_values(|s: String| s@),
            test: match self.test {
                Some(ref p) => Some(p@),
                None => None,
            },
        }
    }
}

/// A result whose payload and error are both taken to their abstract
/// values.
pub open spec fn view_result<T: View>(r: Result<T, Error>) -> Result<T::V, ErrorView> {
    match r {
        Ok(t) => Ok(t@),
        Err(e) => Err(e@),
    }
}

/// The first node with the given name, in document order.
pub open spec fn find_node(nodes: Seq<NodeView>, name: Seq<char>) -> Option<NodeView>
    decreases nodes.len(),
{
    if nodes.len() == 0 {
        None
    } else if nodes[0].name == name {
        Some(nodes[0])
    } else {
        find_node(nodes.skip(1), name)
    }
}

proof fn lemma_find_node_none(nodes: Seq<NodeView>, name: Seq<char>)
    requires
        forall|k: int| 0 <= k < nodes.len() ==> nodes[k].name != name,
    ensures
        find_node(nodes, name) is None,
    decreases nodes.len(),
{
    if nodes.len() != 0 {
        lemma_find_node_none(nodes.skip(1), name);
    }
}

proof fn lemma_find_node_at(nodes: Seq<NodeView>, name: Seq<char>, i: int)
    requires
        0 <= i < nodes.len(),
        nodes[i].name == name,
        forall|k: int| 0 <= k < i ==> nodes[k].name != name,
    ensures
        find_node(nodes, name) == Some(nodes[i]),
    decreases i,
{
    if i != 0 {
        lemma_find_node_at(nodes.skip(1), name, i - 1);
    }
}

/// Whether an entry is a property with the given key.
pub open spec fn entry_named(e: EntryView, key: Seq<char>) -> bool {
    e.name matches Some(n) && n == key
}

/// The value of the last property with the given key: a later property
/// overrides an earlier one of the same name.
pub open spec fn last_property(entries: Seq<EntryView>, key: Seq<char>) -> Option<EntryView>
    decreases entries.len(),
{
    if entries.len() == 0 {
        None
    } else if entry_named(entries[entries.len() - 1], key) {
        Some(entries[entries.len() - 1])
    } else {
        last_property(entries.take(entries.len() - 1), key)
    }
}

proof fn lemma_last_property_none(entries: Seq<EntryView>, key: Seq<char>)
    requires
        forall|k: int| 0 <= k < entries.len() ==> !entry_named(entries[k], key),
    ensures
        last_property(entries, key) is None,
    decreases entries.len(),
{
    if entries.len() != 0 {
        lemma_last_property_none(entries.take(entries.len() - 1), key);
    }
}

proof fn lemma_last_property_at(entries: Seq<EntryView>, key: Seq<char>, i: int)
    requires
        0 <= i < entries.len(),
        entry_named(entries[i], key),
        forall|k: int| i < k < entries.len() ==> !entry_named(entries[k], key),
    ensures
        last_property(entries, key) == Some(entries[i]),
    decreases entries.len(),
{
    if i != entries.len() - 1 {
        lemma_last_property_at(entries.take(entries.len() - 1), key, i);
    }
}

/// The first positional entry: the first entry without a name.
pub open spec fn first_positional(entries: Seq<EntryView>) -> Option<EntryView>
    decreases entries.len(),
{
    if entries.len() == 0 {
        None
    } else if entries[0].name is None {
        Some(entries[0])
    } else {
        first_positional(entries.skip(1))
    }
}

proof fn lemma_first_positional_none(entries: Seq<EntryView>)
    requires
        forall|k: int| 0 <= k < entries.len() ==> entries[k].name is Some,
    ensures
        first_positional(entries) is None,
    decreases entries.len(),
{
    if entries.len() != 0 {
        lemma_first_positional_none(entries.skip(1));
    }
}

proof fn lemma_first_positional_at(entries: Seq<EntryView>, i: int)
    requires
        0 <= i < entries.len(),
        entries[i].name is None,
        forall|k: int| 0 <= k < i ==> entries[k].name is Some,
    ensures
        first_positional(entries) == Some(entries[i]),
    decreases i,
{
    if i != 0 {
        lemma_first_positional_at(entries.skip(1), i - 1);
    }
}

/// What one day node means: its `root` string property and its positional
/// day number, which must fit an unsigned 8-bit integer.
pub open spec fn parse_day_spec(entries: Seq<EntryView>) -> Result<(u8, DayConfigView), ErrorView> {
    match last_property(entries, "root"@) {
        None => Err(ErrorView::DayMissingRoot),
        Some(root_entry) => match root_entry.value {
            ValueView::Str(root) => match first_positional(entries) {
                None => Err(ErrorView::DayMissingNumber),
                Some(num) => match num.value {
                    ValueView::Int(v) => if 0 <= v && v <= 255 {
                        Ok((v as u8, DayConfigView { root }))
                    } else {
                        Err(ErrorView::DayNumberOutOfRange(v))
                    },
                    _ => Err(ErrorView::DayNumberNotInteger),
                },
            },
            _ => Err(ErrorView::DayRootNotString),
        },
    }
}

/// The step of the registry fold: parse one day node and record it; a
/// repeated day number silently overrides the earlier entry.
pub open spec fn day_step() -> spec_fn(Map<u8, DayConfigView>, ChildView) -> Result<
    Map<u8, DayConfigView>,
    ErrorView,
> {
    |acc: Map<u8, DayConfigView>, c: ChildView|
        match parse_day_spec(c.entries) {
            Ok(p) => Ok(acc.insert(p.0, p.1)),
            Err(e) => Err(e),
        }
}

/// What a registry document means: the first `days` node must exist and
/// have children; each child contributes one mapping.
pub open spec fn parse_registry_spec(nodes: Seq<NodeView>) -> Result<
    Map<u8, DayConfigView>,
    ErrorView,
> {
    match find_node(nodes, "days"@) {
        None => Err(ErrorView::MissingDaysNode),
        Some(n) => match n.children {
            None => Err(ErrorView::DaysWithoutChildren),
            Some(cs) => fold_result(Map::empty(), cs, day_step()),
        },
    }
}

/// Parses the entries of one day node.
fn parse_day(entries: &Vec<Entry>) -> (r: Result<(u8, DayConfig), Error>)
    ensures
        (match parse_day_spec(entry_views(entries@)) {
            Ok(p) => r matches Ok(q) && q.0 == p.0 && q.1@ == p.1,
            Err(e) => r matches Err(x) && x@ == e,
        }),
{
    let ghost es = entry_views(entries@);
    let n = entries.len();
    let mut idx: usize = n;
    let mut found: Option<usize> = None;
    loop
        invariant_except_break
            found is None,
            forall|j: int| idx <= j < n ==> !entry_named(es[j], "root"@),
        invariant
            0 <= idx <= n,
            n == entries.len(),
            es == entry_views(entries@),
        ensures
            found matches Some(fi) ==> 0 <= fi < n && entry_named(es[fi as int], "root"@)
                && (forall|j: int| fi < j < n ==> !entry_named(es[j], "root"@)),
            found is None ==> forall|j: int| 0 <= j < n ==> !entry_named(es[j], "root"@),
        decreases idx,
    {
        if idx == 0 {
            break;
        }
        idx -= 1;
        let named_root = match &entries[idx].name {
            Some(nm) => str_eq(nm.as_str(), "root"),
            None => false,
        };
        if named_root {
            found = Some(idx);
            break;
        }
        proof {
            assert(!entry_named(es[idx as int], "root"@));
        }
    }
    let fi = match found {
        Some(fi) => fi,
        None => {
            proof {
                lemma_last_property_none(es, "root"@);
            }
            return Err(Error::DayMissingRoot);
        },
    };
    proof {
        lemma_last_property_at(es, "root"@, fi as int);
    }
    let root: String = match &entries[fi].value {
        Value::Str(s) => s.clone(),
        _ => {
            return Err(Error::DayRootNotString);
        },
    };
    let mut k: usize = 0;
    let mut pos: Option<usize> = None;
    loop
        invariant_except_break
            pos is None,
            forall|j: int| 0 <= j < k ==> es[j].name is Some,
        invariant
            0 <= k <= n,
            n == entries.len(),
            es == entry_views(entries@),
        ensures
            pos matches Some(pi) ==> 0 <= pi < n && es[pi as int].name is None && (forall|j: int|
                0 <= j < pi ==> es[j].name is Some),
            pos is None ==> forall|j: int| 0 <= j < n ==> es[j].name is Some,
        decreases n - k,
    {
        if k == n {
            break;
        }
        let is_positional = match &entries[k].name {
            Some(_) => false,
            None => true,
        };
        if is_positional {
            pos = Some(k);
            break;
        }
        k += 1;
    }
    let pi = match pos {
        Some(pi) => pi,
        None => {
            proof {
                lemma_first_positional_none(es);
            }
            return Err(Error::DayMissingNumber);
        },
    };
    proof {
        lemma_first_positional_at(es, pi as int);
    }
    match &entries[pi].value {
        Value::Int(v) => {
            let v = *v;
            if 0 <= v && v <= 255 {
                Ok((v as u8, DayConfig { root }))
            } else {
                Err(Error::DayNumberOutOfRange(v))
            }
        },
        _ => Err(Error::DayNumberNotInteger),
    }
}

impl AdventConfig {
    /// Parses a registry document.
    pub fn from_document(doc: &kdl::KdlDocument) -> (r: Result<AdventConfig, Error>)
        ensures
            view_result(r) == parse_registry_spec(kdl_nodes(*doc)),
    {
        broadcast use vstd::std_specs::hash::group_hash_axioms;

        let ghost nodes = kdl_nodes(*doc);
        let n = doc_node_count(doc);
        let mut i: usize = 0;
        let mut found: Option<usize> = None;
        loop
            invariant_except_break
                found is None,
                forall|k: int| 0 <= k < i ==> nodes[k].name != "days"@,
            invariant
                0 <= i <= n,
                n == nodes.len(),
                nodes == kdl_nodes(*doc),
            ensures
                found matches Some(fi) ==> 0 <= fi < n && nodes[fi as int].name == "days"@ && (
                forall|k: int| 0 <= k < fi ==> nodes[k].name != "days"@),
                found is None ==> forall|k: int| 0 <= k < n ==> nodes[k].name != "days"@,
            decreases n - i,
        {
            if i == n {
                break;
            }
            let name = doc_node_name(doc, i);
            if str_eq(name.as_str(), "days") {
                found = Some(i);
                break;
            }
            i += 1;
        }
        let di = match found {
            Some(di) => di,
            None => {
                proof {
                    lemma_find_node_none(nodes, "days"@);
                }
                return Err(Error::MissingDaysNode);
            },
        };
        proof {
            lemma_find_node_at(nodes, "days"@, di as int);
        }
        if !doc_node_has_children(doc, di) {
            return Err(Error::DaysWithoutChildren);
        }
        let ghost cs = nodes[di as int].children->Some_0;
        let m = doc_child_count(doc, di);
        let mut days: HashMap<u8, DayConfig> = HashMap::new();
        let mut j: usize = 0;
        proof {
            assert(cs.take(0) =~= Seq::<ChildView>::empty());
            assert(days@.map_values(|d: DayConfig| d@) =~= Map::<u8, DayConfigView>::empty());
        }
        loop
            invariant
                0 <= j <= m,
                m == cs.len(),
                nodes == kdl_nodes(*doc),
                0 <= di < nodes.len(),
                nodes[di as int].children == Some(cs),
                parse_registry_spec(nodes) == fold_result(
                    Map::<u8, DayConfigView>::empty(),
                    cs,
                    day_step(),
                ),
                fold_result(Map::<u8, DayConfigView>::empty(), cs.take(j as int), day_step())
                    == Ok::<_, ErrorView>(days@.map_values(|d: DayConfig| d@)),
            ensures
                parse_registry_spec(nodes) == Ok::<_, ErrorView>(
                    days@.map_values(|d: DayConfig| d@),
                ),
            decreases m - j,
        {
            if j == m {
                proof {
                    assert(cs.take(j as int) =~= cs);
                }
                break;
            }
            let entries = doc_child_entries(doc, di, j);
            match parse_day(&entries) {
                Ok((d, dc)) => {
                    let ghost before = days@.map_values(|d: DayConfig| d@);
                    let ghost dcv = dc@;
                    days.insert(d, dc);
                    proof {
                        lemma_fold_result_snoc(
                            Map::<u8, DayConfigView>::empty(),
                            cs,
                            day_step(),
                            j as int,
                        );
                        assert(day_step()(before, cs[j as int]) == Ok::<Map<u8, DayConfigView>,
                            ErrorView>(before.insert(d, dcv)));
                        assert(days@.map_values(|d: DayConfig| d@) =~= before.insert(d, dcv));
                    }
                },
                Err(e) => {
                    proof {
                        lemma_fold_result_snoc(
                            Map::<u8, DayConfigView>::empty(),
                            cs,
                            day_step(),
                            j as int,
                        );
                        assert(day_step()(days@.map_values(|d: DayConfig| d@), cs[j as int])
                            == Err::<Map<u8, DayConfigView>, ErrorView>(e@));
                        lemma_fold_result_error(
                            Map::<u8, DayConfigView>::empty(),
                            cs,
                            day_step(),
                            j as int + 1,
                        );
                    }
                    return Err(e);
                },
            }
            j += 1;
        }
        Ok(AdventConfig { days })
    }

    /// The configuration registered for `day`, if any.
    pub fn day(&self, day: u8) -> (r: Option<&DayConfig>)
        ensures
            r matches Some(c) ==> self@.contains_key(day) && c@ == self@[day],
            r is None ==> !self@.contains_key(day),
    {
        broadcast use vstd::std_specs::hash::group_hash_axioms;

        self.days.get(&day)
    }
}


/// The empty run configuration, before any node is read.
pub open spec fn empty_run_view() -> RunConfigView {
    RunConfigView { build: Seq::empty(), clean: Seq::empty(), test: None }
}

/// What the entries of a `run` node mean: the first entry is the command,
/// the remaining entries are its arguments, and all must be strings.
pub open spec fn run_entry_spec(es: Seq<EntryView>) -> Result<ProgramView, ErrorView> {
    if es.len() == 0 {
        Err(ErrorView::RunMissingParameters)
    } else if exists|k: int| 1 <= k < es.len() && !((#[trigger] es[k]).value is Str) {
        Err(ErrorView::RunArgumentNotString)
    } else if !(es[0].value is Str) {
        Err(ErrorView::RunArgumentNotString)
    } else {
        Ok(ProgramView {
            cmd: es[0].value->Str_0,
            args: es.skip(1).map_values(|e: EntryView| e.value->Str_0),
        })
    }
}

/// What the entries of a `delete` node mean: exactly one string, the path.
pub open spec fn delete_entry_spec(es: Seq<EntryView>) -> Result<Seq<char>, ErrorView> {
    if es.len() == 0 {
        Err(ErrorView::DeleteMissingParameters)
    } else if es.len() > 1 {
        Err(ErrorView::DeleteExtraParameters)
    } else if !(es[0].value is Str) {
        Err(ErrorView::DeletePathNotString)
    } else {
        Ok(es[0].value->Str_0)
    }
}

/// The step for a child of a `build` block: only `run` nodes are allowed,
/// and each appends one build step.
pub open spec fn build_child_step() -> spec_fn(RunConfigView, ChildView) -> Result<
    RunConfigView,
    ErrorView,
> {
    |acc: RunConfigView, c: ChildView|
        if c.name == "run"@ {
            match run_entry_spec(c.entries) {
                Ok(p) => Ok(
                    RunConfigView { build: acc.build.push(p), clean: acc.clean, test: acc.test },
                ),
                Err(e) => Err(e),
            }
        } else {
            Err(ErrorView::UnknownBuildChild(c.name))
        }
}

/// The step for a child of a `clean` block: only `delete` nodes are
/// allowed, and each appends one cleanup path.
pub open spec fn clean_child_step() -> spec_fn(RunConfigView, ChildView) -> Result<
    RunConfigView,
    ErrorView,
> {
    |acc: RunConfigView, c: ChildView|
        if c.name == "delete"@ {
            match delete_entry_spec(c.entries) {
                Ok(path) => Ok(
                    RunConfigView { build: acc.build, clean: acc.clean.push(path), test: acc.test },
                ),
                Err(e) => Err(e),
            }
        } else {
            Err(ErrorView::UnknownCleanChild(c.name))
        }
}

/// The step for a child of a `test` block: only `run` nodes are allowed,
/// and a second one is rejected after the first has been accepted.
pub open spec fn test_child_step() -> spec_fn(RunConfigView, ChildView) -> Result<
    RunConfigView,
    ErrorView,
> {
    |acc: RunConfigView, c: ChildView|
        if c.name == "run"@ {
            match run_entry_spec(c.entries) {
                Ok(p) => if acc.test is Some {
                    Err(ErrorView::MultipleTestRuns)
                } else {
                    Ok(RunConfigView { build: acc.build, clean: acc.clean, test: Some(p) })
                },
                Err(e) => Err(e),
            }
        } else {
            Err(ErrorView::UnknownTestChild(c.name))
        }
}

/// The step for one top-level node of a run document: `build`, `clean` and
/// `test` blocks fold their children in order; a childless block changes
/// nothing; any other name is rejected.
pub open spec fn run_node_step() -> spec_fn(RunConfigView, NodeView) -> Result<
    RunConfigView,
    ErrorView,
> {
    |acc: RunConfigView, n: NodeView|
        if n.name == "build"@ {
            match n.children {
                None => Ok(acc),
                Some(cs) => fold_result(acc, cs, build_child_step()),
            }
        } else if n.name == "clean"@ {
            match n.children {
                None => Ok(acc),
                Some(cs) => fold_result(acc, cs, clean_child_step()),
            }
        } else if n.name == "test"@ {
            match n.children {
                None => Ok(acc),
                Some(cs) => fold_result(acc, cs, test_child_step()),
            }
        } else {
            Err(ErrorView::UnknownTopLevelNode(n.name))
        }
}

/// What a run document means: build steps and cleanup paths accumulate in
/// document order across all blocks, and the first malformed element wins.
pub open spec fn parse_run_spec(nodes: Seq<NodeView>) -> Result<RunConfigView, ErrorView> {
    fold_result(empty_run_view(), nodes, run_node_step())
}

proof fn lemma_node_fold_err(nodes: Seq<NodeView>, i: int, acc0: RunConfigView, ev: ErrorView)
    requires
        0 <= i < nodes.len(),
        fold_result(empty_run_view(), nodes.take(i), run_node_step()) == Ok::<_, ErrorView>(acc0),
        run_node_step()(acc0, nodes[i]) == Err::<RunConfigView, ErrorView>(ev),
    ensures
        parse_run_spec(nodes) == Err::<RunConfigView, ErrorView>(ev),
{
    lemma_fold_result_snoc(empty_run_view(), nodes, run_node_step(), i);
    lemma_fold_result_error(empty_run_view(), nodes, run_node_step(), i + 1);
}

proof fn lemma_child_fold_err(
    acc0: RunConfigView,
    cs: Seq<ChildView>,
    cstep: spec_fn(RunConfigView, ChildView) -> Result<RunConfigView, ErrorView>,
    j: int,
    cur: RunConfigView,
    ev: ErrorView,
)
    requires
        0 <= j < cs.len(),
        fold_result(acc0, cs.take(j), cstep) == Ok::<_, ErrorView>(cur),
        cstep(cur, cs[j]) == Err::<RunConfigView, ErrorView>(ev),
    ensures
        fold_result(acc0, cs, cstep) == Err::<RunConfigView, ErrorView>(ev),
{
    lemma_fold_result_snoc(acc0, cs, cstep, j);
    lemma_fold_result_error(acc0, cs, cstep, j + 1);
}

/// Parses the entries of one `run` node into a program.
fn parse_run_entries(entries: &Vec<Entry>) -> (r: Result<Program, Error>)
    ensures
        (match run_entry_spec(entry_views(entries@)) {
            Ok(p) => r matches Ok(q) && q@ == p,
            Err(e) => r matches Err(x) && x@ == e,
        }),
{
    let ghost es = entry_views(entries@);
    let n = entries.len();
    if n == 0 {
        return Err(Error::RunMissingParameters);
    }
    let mut args: Vec<String> = Vec::new();
    let mut k: usize = 1;
    loop
        invariant
            1 <= k <= n,
            n == entries.len(),
            es == entry_views(entries@),
            args@.len() == k - 1,
            forall|j: int| 1 <= j < k ==> (#[trigger] es[j]).value is Str,
            forall|j: int| 0 <= j < k - 1 ==> args@[j]@ == es[j + 1].value->Str_0,
        ensures
            k == n,
            args@.len() == n - 1,
            forall|j: int| 1 <= j < n ==> (#[trigger] es[j]).value is Str,
            forall|j: int| 0 <= j < n - 1 ==> args@[j]@ == es[j + 1].value->Str_0,
        decreases n - k,
    {
        if k == n {
            break;
        }
        match &entries[k].value {
            Value::Str(s) => {
                args.push(s.clone());
            },
            _ => {
                proof {
                    assert(1 <= k < es.len() && !(es[k as int].value is Str));
                }
                return Err(Error::RunArgumentNotString);
            },
        }
        k += 1;
    }
    proof {
        assert(!(exists|q: int| 1 <= q < es.len() && !((#[trigger] es[q]).value is Str)));
    }
    match &entries[0].value {
        Value::Str(c) => {
            let p = Program { cmd: c.clone(), args };
            proof {
                assert(p@.args =~= es.skip(1).map_values(|e: EntryView| e.value->Str_0));
            }
            Ok(p)
        },
        _ => Err(Error::RunArgumentNotString),
    }
}

impl RunConfig {
    /// Parses a run document.
    pub fn from_document(doc: &kdl::KdlDocument) -> (r: Result<RunConfig, Error>)
        ensures
            view_result(r) == parse_run_spec(kdl_nodes(*doc)),
    {
        let ghost nodes = kdl_nodes(*doc);
        let n = doc_node_count(doc);
        let mut cfg = RunConfig { build: Vec::new(), clean: Vec::new(), test: None };
        proof {
            assert(nodes.take(0) =~= Seq::<NodeView>::empty());
            assert(cfg@.build =~= empty_run_view().build);
            assert(cfg@.clean =~= empty_run_view().clean);
        }
        let mut i: usize = 0;
        loop
            invariant
                0 <= i <= n,
                n == nodes.len(),
                nodes == kdl_nodes(*doc),
                fold_result(empty_run_view(), nodes.take(i as int), run_node_step()) == Ok::<
                    _,
                    ErrorView,
                >(cfg@),
            ensures
                parse_run_spec(nodes) == Ok::<_, ErrorView>(cfg@),
            decreases n - i,
        {
            if i == n {
                proof {
                    assert(nodes.take(i as int) =~= nodes);
                }
                break;
            }
            let ghost acc0 = cfg@;
            let name = doc_node_name(doc, i);
            let is_build = str_eq(name.as_str(), "build");
            let is_clean = if is_build { false } else { str_eq(name.as_str(), "clean") };
            let is_test = if is_build || is_clean { false } else { str_eq(name.as_str(), "test") };
            if !(is_build || is_clean || is_test) {
                proof {
                    lemma_node_fold_err(
                        nodes,
                        i as int,
                        acc0,
                        ErrorView::UnknownTopLevelNode(nodes[i as int].name),
                    );
                }
                return Err(Error::UnknownTopLevelNode(name));
            }
            if doc_node_has_children(doc, i) {
                let ghost cs = nodes[i as int].children->Some_0;
                let ghost cstep = if is_build {
                    build_child_step()
                } else if is_clean {
                    clean_child_step()
                } else {
                    test_child_step()
                };
                let m = doc_child_count(doc, i);
                let mut j: usize = 0;
                proof {
                    assert(cs.take(0) =~= Seq::<ChildView>::empty());
                }
                loop
                    invariant
                        0 <= j <= m,
                        m == cs.len(),
                        nodes == kdl_nodes(*doc),
                        0 <= i < nodes.len(),
                        nodes[i as int].children == Some(cs),
                        is_build || is_clean || is_test,
                        is_build ==> nodes[i as int].name == "build"@,
                        is_clean ==> nodes[i as int].name == "clean"@ && nodes[i as int].name
                            != "build"@,
                        is_test ==> nodes[i as int].name == "test"@ && nodes[i as int].name
                            != "build"@ && nodes[i as int].name != "clean"@,
                        is_build ==> !is_clean && !is_test,
                        is_clean ==> !is_test,
                        cstep == (if is_build {
                            build_child_step()
                        } else if is_clean {
                            clean_child_step()
                        } else {
                            test_child_step()
                        }),
                        fold_result(empty_run_view(), nodes.take(i as int), run_node_step())
                            == Ok::<_, ErrorView>(acc0),
                        fold_result(acc0, cs.take(j as int), cstep) == Ok::<_, ErrorView>(cfg@),
                    ensures
                        fold_result(acc0, cs, cstep) == Ok::<_, ErrorView>(cfg@),
                    decreases m - j,
                {
                    if j == m {
                        proof {
                            assert(cs.take(j as int) =~= cs);
                        }
                        break;
                    }
                    let ghost cur = cfg@;
                    let cname = doc_child_name(doc, i, j);
                    if is_build {
                        if !str_eq(cname.as_str(), "run") {
                            proof {
                                lemma_child_fold_err(
                                    acc0,
                                    cs,
                                    cstep,
                                    j as int,
                                    cur,
                                    ErrorView::UnknownBuildChild(cs[j as int].name),
                                );
                                assert(run_node_step()(acc0, nodes[i as int])
                                    == Err::<RunConfigView, ErrorView>(
                                    ErrorView::UnknownBuildChild(cs[j as int].name),
                                ));
                                lemma_node_fold_err(
                                    nodes,
                                    i as int,
                                    acc0,
                                    ErrorView::UnknownBuildChild(cs[j as int].name),
                                );
                            }
                            return Err(Error::UnknownBuildChild(cname));
                        }
                        let entries = doc_child_entries(doc, i, j);
                        match parse_run_entries(&entries) {
                            Ok(p) => {
                                let ghost pv = p@;
                                cfg.build.push(p);
                                proof {
                                    lemma_fold_result_snoc(acc0, cs, cstep, j as int);
                                    assert(cfg@.build =~= cur.build.push(pv));
                                    assert(cfg@ == RunConfigView {
                                        build: cur.build.push(pv),
                                        clean: cur.clean,
                                        test: cur.test,
                                    });
                                }
                            },
                            Err(e) => {
                                proof {
                                    lemma_child_fold_err(acc0, cs, cstep, j as int, cur, e@);
                                    assert(run_node_step()(acc0, nodes[i as int])
                                        == Err::<RunConfigView, ErrorView>(e@));
                                    lemma_node_fold_err(nodes, i as int, acc0, e@);
                                }
                                return Err(e);
                            },
                        }
                    } else if is_clean {
                        if !str_eq(cname.as_str(), "delete") {
                            proof {
                                lemma_child_fold_err(
                                    acc0,
                                    cs,
                                    cstep,
                                    j as int,
                                    cur,
                                    ErrorView::UnknownCleanChild(cs[j as int].name),
                                );
                                assert(run_node_step()(acc0, nodes[i as int])
                                    == Err::<RunConfigView, ErrorView>(
                                    ErrorView::UnknownCleanChild(cs[j as int].name),
                                ));
                                lemma_node_fold_err(
                                    nodes,
                                    i as int,
                                    acc0,
                                    ErrorView::UnknownCleanChild(cs[j as int].name),
                                );
                            }
                            return Err(Error::UnknownCleanChild(cname));
                        }
                        let entries = doc_child_entries(doc, i, j);
                        let ghost ces = entry_views(entries@);
                        let de: Error;
                        if entries.len() == 0 {
                            de = Error::DeleteMissingParameters;
                        } else if entries.len() > 1 {
                            de = Error::DeleteExtraParameters;
                        } else {
                            match &entries[0].value {
                                Value::Str(path) => {
                                    let ghost pathv = path@;
                                    cfg.clean.push(path.clone());
                                    proof {
                                        lemma_fold_result_snoc(acc0, cs, cstep, j as int);
                                        assert(cfg@.clean =~= cur.clean.push(pathv));
                                        assert(cfg@ == RunConfigView {
                                            build: cur.build,
                                            clean: cur.clean.push(pathv),
                                            test: cur.test,
                                        });
                                    }
                                    j += 1;
                                    continue;
                                },
                                _ => {
                                    de = Error::DeletePathNotString;
                                },
                            }
                        }
                        proof {
                            lemma_child_fold_err(acc0, cs, cstep, j as int, cur, de@);
                            assert(run_node_step()(acc0, nodes[i as int])
                                == Err::<RunConfigView, ErrorView>(de@));
                            lemma_node_fold_err(nodes, i as int, acc0, de@);
                        }
                        return Err(de);
                    } else {
                        if !str_eq(cname.as_str(), "run") {
                            proof {
                                lemma_child_fold_err(
                                    acc0,
                                    cs,
                                    cstep,
                                    j as int,
                                    cur,
                                    ErrorView::UnknownTestChild(cs[j as int].name),
                                );
                                assert(run_node_step()(acc0, nodes[i as int])
                                    == Err::<RunConfigView, ErrorView>(
                                    ErrorView::UnknownTestChild(cs[j as int].name),
                                ));
                                lemma_node_fold_err(
                                    nodes,
                                    i as int,
                                    acc0,
                                    ErrorView::UnknownTestChild(cs[j as int].name),
                                );
                            }
                            return Err(Error::UnknownTestChild(cname));
                        }
                        let entries = doc_child_entries(doc, i, j);
                        match parse_run_entries(&entries) {
                            Ok(p) => {
                                if cfg.test.is_some() {
                                    proof {
                                        lemma_child_fold_err(
                                            acc0,
                                            cs,
                                            cstep,
                                            j as int,
                                            cur,
                                            ErrorView::MultipleTestRuns,
                                        );
                                        assert(run_node_step()(acc0, nodes[i as int])
                                            == Err::<RunConfigView, ErrorView>(
                                            ErrorView::MultipleTestRuns,
                                        ));
                                        lemma_node_fold_err(
                                            nodes,
                                            i as int,
                                            acc0,
                                            ErrorView::MultipleTestRuns,
                                        );
                                    }
                                    return Err(Error::MultipleTestRuns);
                                }
                                let ghost pv = p@;
                                cfg.test = Some(p);
                                proof {
                                    lemma_fold_result_snoc(acc0, cs, cstep, j as int);
                                    assert(cfg@ == RunConfigView {
                                        build: cur.build,
                                        clean: cur.clean,
                                        test: Some(pv),
                                    });
                                }
                            },
                            Err(e) => {
                                proof {
                                    lemma_child_fold_err(acc0, cs, cstep, j as int, cur, e@);
                                    assert(run_node_step()(acc0, nodes[i as int])
                                        == Err::<RunConfigView, ErrorView>(e@));
                                    lemma_node_fold_err(nodes, i as int, acc0, e@);
                                }
                                return Err(e);
                            },
                        }
                    }
                    j += 1;
                }
                proof {
                    lemma_fold_result_snoc(empty_run_view(), nodes, run_node_step(), i as int);
                    assert(run_node_step()(acc0, nodes[i as int]) == Ok::<
                        RunConfigView,
                        ErrorView,
                    >(cfg@));
                }
            } else {
                proof {
                    lemma_fold_result_snoc(empty_run_view(), nodes, run_node_step(), i as int);
                    assert(run_node_step()(acc0, nodes[i as int]) == Ok::<
                        RunConfigView,
                        ErrorView,
                    >(acc0));
                }
            }
            i += 1;
        }
        Ok(cfg)
    }
}


/// A run document with a top-level node named anything but `build`, `clean`
/// or `test` never parses, whatever else it holds: an unknown node is never
/// silently ignored.
pub proof fn lemma_unknown_node_rejected(nodes: Seq<NodeView>, i: int)
    requires
        0 <= i < nodes.len(),
        nodes[i].name != "build"@,
        nodes[i].name != "clean"@,
        nodes[i].name != "test"@,
    ensures
        parse_run_spec(nodes) is Err,
{
    assert forall|a: RunConfigView| (#[trigger] run_node_step()(a, nodes[i])) is Err by {}
    lemma_fold_poisoned(empty_run_view(), nodes, run_node_step(), i);
}

/// A run document with a block child named anything but the block's one
/// expected name never parses: an unknown child is never silently ignored.
pub proof fn lemma_unknown_child_rejected(nodes: Seq<NodeView>, i: int, j: int)
    requires
        0 <= i < nodes.len(),
        nodes[i].name == "build"@ || nodes[i].name == "clean"@ || nodes[i].name == "test"@,
        nodes[i].children matches Some(cs) && 0 <= j < cs.len(),
        nodes[i].name == "build"@ ==> nodes[i].children->Some_0[j].name != "run"@,
        nodes[i].name == "clean"@ ==> nodes[i].children->Some_0[j].name != "delete"@,
        nodes[i].name == "test"@ ==> nodes[i].children->Some_0[j].name != "run"@,
    ensures
        parse_run_spec(nodes) is Err,
{
    let cs = nodes[i].children->Some_0;
    assert forall|a: RunConfigView| (#[trigger] run_node_step()(a, nodes[i])) is Err by {
        if nodes[i].name == "build"@ {
            assert forall|b: RunConfigView| (#[trigger] build_child_step()(b, cs[j])) is Err by {}
            lemma_fold_poisoned(a, cs, build_child_step(), j);
        } else if nodes[i].name == "clean"@ {
            assert forall|b: RunConfigView| (#[trigger] clean_child_step()(b, cs[j])) is Err by {}
            lemma_fold_poisoned(a, cs, clean_child_step(), j);
        } else {
            assert forall|b: RunConfigView| (#[trigger] test_child_step()(b, cs[j])) is Err by {}
            lemma_fold_poisoned(a, cs, test_child_step(), j);
        }
    }
    lemma_fold_poisoned(empty_run_view(), nodes, run_node_step(), i);
}

} // verus!
