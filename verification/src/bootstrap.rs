//! From the model of a build to the services of a ready workspace: which targets are
//! indexed, which the presentation compiler is told, who owns a URI, and what becomes of
//! the workspace when a step fails. The application talks to the build server, opens the
//! index and builds the services from the plan that this module makes.

use vstd::prelude::*;
use vstd::string::*;

use crate::convert::Span;
use crate::doctor::DoctorTargets;
use crate::documents::DocumentStore;
use crate::lifecycle::WorkspaceState;
use crate::logging::{Level, LogRecord};
use crate::numerals;
use crate::order;
use crate::paths;
use crate::pc;
use crate::pc_abi;
use crate::pc_abi::{Rng, TargetConfig};
use crate::strmap::StrMap;
use crate::text;

verus! {

/// The directory of the index, under the root of the workspace.
pub const STORE_DIR: &'static str = ".scala3-bsp-semantic-ls";

/// A Scala 3 target of the build.
#[derive(Debug, PartialEq, Eq)]
pub struct BspTarget {
    pub bsp_id: String,
    pub display_name: String,
    pub scala_version: String,
    pub scalac_options: Vec<String>,
    pub class_directory: String,
    pub classpath: Vec<String>,
    /// Where the compiler writes SemanticDB, if it does.
    pub semanticdb_root: Option<String>,
    pub sourceroot: Option<String>,
    pub sources: Vec<String>,
    pub direct_deps: Vec<String>,
}

/// The model of a build: its targets, and the target of each source URI.
#[derive(Debug, PartialEq, Eq)]
pub struct BspProjectModel {
    pub targets: Vec<BspTarget>,
    pub uri_to_target: Vec<(String, String)>,
}

impl BspProjectModel {
    /// No URI has two owners.
    pub open spec fn owned_once(self) -> bool {
        owned_uris(self.uri_to_target@).no_duplicates()
    }
}

/// The URIs of a list of owners.
pub open spec fn owned_uris(entries: Seq<(String, String)>) -> Seq<Seq<char>> {
    entries.map_values(|e: (String, String)| e.0@)
}

/// What is known of a document besides its text.
#[derive(Clone, Copy, Debug, PartialEq, Eq, Structural)]
pub struct DocFacts {
    pub generated: bool,
    pub readonly: bool,
    pub is_dependency_source: bool,
}

impl DocFacts {
    /// A plain source of the workspace.
    pub fn workspace_source() -> (facts: DocFacts)
        ensures
            facts == workspace_source(),
    {
        DocFacts { generated: false, readonly: false, is_dependency_source: false }
    }
}

/// A plain source of the workspace.
pub open spec fn workspace_source() -> DocFacts {
    DocFacts { generated: false, readonly: false, is_dependency_source: false }
}

/// The facts of a document where nothing else is known: it is a plain source.
pub fn workspace_source_facts(_bsp_id: &str, _uri: &str) -> (facts: DocFacts)
    ensures
        facts == workspace_source(),
{
    DocFacts::workspace_source()
}

/// A target that is indexed.
#[derive(Debug, PartialEq, Eq)]
pub struct TargetSpec {
    pub bsp_id: String,
    pub semanticdb_root: String,
    pub sourceroot: String,
    pub direct_deps: Vec<String>,
    pub scala_version: String,
}

/// The model of a target that is indexed.
pub struct TargetSpecV {
    pub bsp_id: Seq<char>,
    pub semanticdb_root: Seq<char>,
    pub sourceroot: Seq<char>,
    pub direct_deps: Seq<Seq<char>>,
    pub scala_version: Seq<char>,
}

impl View for TargetSpec {
    type V = TargetSpecV;

    open spec fn view(&self) -> TargetSpecV {
        TargetSpecV {
            bsp_id: self.bsp_id@,
            semanticdb_root: self.semanticdb_root@,
            sourceroot: self.sourceroot@,
            direct_deps: text::texts(self.direct_deps@),
            scala_version: self.scala_version@,
        }
    }
}

/// The targets that are indexed, and how to learn the facts of a document.
pub struct WorkspaceTargets<F> {
    pub targets: Vec<TargetSpec>,
    pub doc_facts: F,
}

/// The models of a list of targets.
pub open spec fn spec_views(targets: Seq<TargetSpec>) -> Seq<TargetSpecV> {
    targets.map_values(|t: TargetSpec| t@)
}

impl<F: Fn(&str, &str) -> DocFacts> WorkspaceTargets<F> {
    /// The facts of a document of a target.
    pub fn facts(&self, target: &TargetSpec, uri: &str) -> (facts: DocFacts)
        requires
            forall|id: &str, uri: &str| self.doc_facts.requires((id, uri)),
        ensures
            exists|id: &str, key: &str| #[trigger]
                self.doc_facts.ensures((id, key), facts) && id@ == target.bsp_id@ && key@ == uri@,
    {
        let id = target.bsp_id.as_str();
        let facts = (self.doc_facts)(id, uri);
        assert(self.doc_facts.ensures((id, uri), facts));
        facts
    }
}

/// The target as it is indexed. One that lacks the place of its SemanticDB or of its
/// sources is not.
pub open spec fn spec_of(target: BspTarget) -> Option<TargetSpecV> {
    match target.semanticdb_root {
        Some(semanticdb_root) => match target.sourceroot {
            Some(sourceroot) => Some(
                TargetSpecV {
                    bsp_id: target.bsp_id@,
                    semanticdb_root: semanticdb_root@,
                    sourceroot: sourceroot@,
                    direct_deps: text::texts(target.direct_deps@),
                    scala_version: target.scala_version@,
                },
            ),
            None => None,
        },
        None => None,
    }
}

/// The targets that are indexed, in the order of the model.
pub open spec fn specs_of(targets: Seq<BspTarget>) -> Seq<TargetSpecV>
    decreases targets.len(),
{
    if targets.len() == 0 {
        seq![]
    } else {
        match spec_of(targets.last()) {
            Some(spec) => specs_of(targets.drop_last()).push(spec),
            None => specs_of(targets.drop_last()),
        }
    }
}

/// The targets that are indexed, in the order of the model.
pub fn from_bsp<F: Fn(&str, &str) -> DocFacts>(model: &BspProjectModel, doc_facts: F) -> (
    workspace: WorkspaceTargets<F>)
    ensures
        spec_views(workspace.targets@) == specs_of(model.targets@),
        workspace.doc_facts == doc_facts,
{
    let ghost all = model.targets@;
    let mut targets: Vec<TargetSpec> = Vec::new();
    let mut i: usize = 0;
    assert(all.take(0) =~= seq![]);
    assert(spec_views(targets@) =~= seq![]);
    while i < model.targets.len()
        invariant
            i <= model.targets@.len(),
            all == model.targets@,
            spec_views(targets@) == specs_of(all.take(i as int)),
        decreases model.targets.len() - i,
    {
        let target = &model.targets[i];
        let ghost before = spec_views(targets@);
        assert(all.take(i + 1).drop_last() =~= all.take(i as int));
        match &target.semanticdb_root {
            Some(semanticdb_root) => match &target.sourceroot {
                Some(sourceroot) => {
                    let spec = TargetSpec {
                        bsp_id: target.bsp_id.clone(),
                        semanticdb_root: semanticdb_root.clone(),
                        sourceroot: sourceroot.clone(),
                        direct_deps: text::copy_list(target.direct_deps.as_slice()),
                        scala_version: target.scala_version.clone(),
                    };
                    let ghost v = spec@;
                    targets.push(spec);
                    assert(spec_views(targets@) =~= before.push(v));
                },
                None => {},
            },
            None => {},
        }
        i += 1;
    }
    assert(all.take(i as int) =~= all);
    WorkspaceTargets { targets, doc_facts }
}

/// A list without what it held before: the first of equal texts stays.
pub open spec fn distinct(list: Seq<Seq<char>>) -> Seq<Seq<char>>
    decreases list.len(),
{
    if list.len() == 0 {
        seq![]
    } else if distinct(list.drop_last()).contains(list.last()) {
        distinct(list.drop_last())
    } else {
        distinct(list.drop_last()).push(list.last())
    }
}

/// Whether a list holds a text.
fn holds(list: &Vec<String>, wanted: &str) -> (r: bool)
    ensures
        r == text::texts(list@).contains(wanted@),
{
    let ghost all = text::texts(list@);
    let mut i: usize = 0;
    while i < list.len()
        invariant
            i <= list@.len(),
            all == text::texts(list@),
            forall|j: int| 0 <= j < i ==> #[trigger] all[j] != wanted@,
        decreases list.len() - i,
    {
        assert(all[i as int] == list@[i as int]@);
        if text::same_text(list[i].as_str(), wanted) {
            assert(all.contains(all[i as int]));
            return true;
        }
        i += 1;
    }
    false
}

/// The entries of a list and one more, each once, in order.
fn distinct_with(list: &Vec<String>, more: &String) -> (kept: Vec<String>)
    ensures
        text::texts(kept@) == distinct(text::texts(list@).push(more@)),
{
    let ghost all = text::texts(list@);
    let mut kept: Vec<String> = Vec::new();
    let mut i: usize = 0;
    assert(all.take(0) =~= seq![]);
    assert(text::texts(kept@) =~= seq![]);
    while i < list.len()
        invariant
            i <= list@.len(),
            all == text::texts(list@),
            text::texts(kept@) == distinct(all.take(i as int)),
        decreases list.len() - i,
    {
        assert(all.take(i + 1).drop_last() =~= all.take(i as int));
        assert(all.take(i + 1).last() == list@[i as int]@);
        add_distinct(&mut kept, &list[i]);
        i += 1;
    }
    assert(all.take(i as int) =~= all);
    assert(all.push(more@).drop_last() =~= all);
    add_distinct(&mut kept, more);
    kept
}

fn add_distinct(kept: &mut Vec<String>, entry: &String)
    ensures
        text::texts(final(kept)@) == (if text::texts(old(kept)@).contains(entry@) {
            text::texts(old(kept)@)
        } else {
            text::texts(old(kept)@).push(entry@)
        }),
{
    if !holds(kept, entry.as_str()) {
        let ghost before = text::texts(kept@);
        kept.push(entry.clone());
        assert(text::texts(kept@) =~= before.push(entry@));
    }
}

/// A target as the presentation compiler is told: its class path ends with its own
/// class directory, so that sources see each other, and it writes no SemanticDB.
pub open spec fn pc_config_of(target: BspTarget) -> pc_abi::TargetConfigV {
    pc_abi::TargetConfigV {
        bsp_id: target.bsp_id@,
        scala_version: target.scala_version@,
        classpath: distinct(text::texts(target.classpath@).push(target.class_directory@)),
        scalac_options: pc::without_semanticdb(text::texts(target.scalac_options@)),
        source_dirs: seq![],
    }
}

/// The targets that the presentation compiler is told: those that are indexed.
pub open spec fn pc_configs_of(targets: Seq<BspTarget>) -> Seq<pc_abi::TargetConfigV>
    decreases targets.len(),
{
    if targets.len() == 0 {
        seq![]
    } else if spec_of(targets.last()) is Some {
        pc_configs_of(targets.drop_last()).push(pc_config_of(targets.last()))
    } else {
        pc_configs_of(targets.drop_last())
    }
}

/// The targets that the presentation compiler is told.
pub fn pc_target_configs(model: &BspProjectModel) -> (configs: Vec<TargetConfig>)
    ensures
        pc::target_views(configs@) == pc_configs_of(model.targets@),
{
    let ghost all = model.targets@;
    let mut configs: Vec<TargetConfig> = Vec::new();
    let mut i: usize = 0;
    assert(all.take(0) =~= seq![]);
    assert(pc::target_views(configs@) =~= seq![]);
    while i < model.targets.len()
        invariant
            i <= model.targets@.len(),
            all == model.targets@,
            pc::target_views(configs@) == pc_configs_of(all.take(i as int)),
        decreases model.targets.len() - i,
    {
        let target = &model.targets[i];
        let ghost before = pc::target_views(configs@);
        assert(all.take(i + 1).drop_last() =~= all.take(i as int));
        if target.semanticdb_root.is_some() && target.sourceroot.is_some() {
            let none: Vec<String> = Vec::new();
            assert(text::texts(none@) =~= seq![]);
            let config = TargetConfig {
                bsp_id: target.bsp_id.clone(),
                scala_version: target.scala_version.clone(),
                classpath: distinct_with(&target.classpath, &target.class_directory),
                scalac_options: pc::pc_options(target.scalac_options.as_slice()),
                source_dirs: none,
            };
            let ghost v = config@;
            configs.push(config);
            assert(pc::target_views(configs@) =~= before.push(v));
        }
        i += 1;
    }
    assert(all.take(i as int) =~= all);
    configs
}

/// A target tells where its SemanticDB and its sources are.
pub open spec fn rooted(target: BspTarget) -> bool {
    target.semanticdb_root is Some && target.sourceroot is Some
}

/// How many targets tell where their SemanticDB and their sources are.
pub open spec fn rooted_count(targets: Seq<BspTarget>) -> nat
    decreases targets.len(),
{
    if targets.len() == 0 {
        0
    } else {
        rooted_count(targets.drop_last()) + (if rooted(targets.last()) {
            1nat
        } else {
            0
        })
    }
}

/// An indexed target is a target of the build: it has its id, its places, its Scala version
/// and each of its dependencies, in order.
pub open spec fn indexes(spec: TargetSpec, target: BspTarget) -> bool {
    &&& spec.bsp_id@ == target.bsp_id@
    &&& target.semanticdb_root matches Some(root) && spec.semanticdb_root@ == root@
    &&& target.sourceroot matches Some(root) && spec.sourceroot@ == root@
    &&& spec.scala_version@ == target.scala_version@
    &&& spec.direct_deps@.len() == target.direct_deps@.len()
    &&& forall|d: int|
        0 <= d < target.direct_deps@.len() ==> (#[trigger] spec.direct_deps@[d])@
            == target.direct_deps@[d]@
}

proof fn lemma_specs(targets: Seq<BspTarget>)
    ensures
        specs_of(targets).len() == rooted_count(targets),
        forall|i: int|
            0 <= i < targets.len() && rooted(#[trigger] targets[i]) ==> rooted_count(
                targets.take(i),
            ) < rooted_count(targets) && Some(specs_of(targets)[rooted_count(targets.take(i)) as int])
                == spec_of(targets[i]),
    decreases targets.len(),
{
    if targets.len() > 0 {
        let earlier = targets.drop_last();
        lemma_specs(earlier);
        assert forall|i: int| 0 <= i < targets.len() && rooted(#[trigger] targets[i]) implies rooted_count(
            targets.take(i),
        ) < rooted_count(targets) && Some(specs_of(targets)[rooted_count(targets.take(i)) as int])
            == spec_of(targets[i]) by {
            if i < earlier.len() {
                assert(earlier[i] == targets[i]);
                assert(earlier.take(i) =~= targets.take(i));
            } else {
                assert(targets.take(i) =~= earlier);
            }
        }
    }
}

/// The build's targets are indexed as they are: the indexed targets are, in order, those that
/// tell where their SemanticDB and their sources are, each with its own id, places, Scala
/// version and all of its dependencies.
pub proof fn law_targets_indexed_whole(targets: Seq<BspTarget>, indexed: Seq<TargetSpec>)
    requires
        spec_views(indexed) == specs_of(targets),
    ensures
        indexed.len() == rooted_count(targets),
        forall|i: int|
            0 <= i < targets.len() && rooted(#[trigger] targets[i]) ==> rooted_count(
                targets.take(i),
            ) < indexed.len() && indexes(
                indexed[rooted_count(targets.take(i)) as int],
                targets[i],
            ),
{
    lemma_specs(targets);
    assert(spec_views(indexed).len() == indexed.len());
    assert forall|i: int| 0 <= i < targets.len() && rooted(#[trigger] targets[i]) implies rooted_count(
        targets.take(i),
    ) < indexed.len() && indexes(indexed[rooted_count(targets.take(i)) as int], targets[i]) by {
        let k = rooted_count(targets.take(i)) as int;
        let spec = indexed[k];
        assert(spec_views(indexed)[k] == spec@);
        let deps = text::texts(spec.direct_deps@);
        assert(deps == text::texts(targets[i].direct_deps@));
        assert(deps.len() == spec.direct_deps@.len());
        assert(deps.len() == targets[i].direct_deps@.len());
        assert forall|d: int| 0 <= d < targets[i].direct_deps@.len() implies (
        #[trigger] spec.direct_deps@[d])@ == targets[i].direct_deps@[d]@ by {
            assert(deps[d] == spec.direct_deps@[d]@);
            assert(deps[d] == targets[i].direct_deps@[d]@);
        }
    }
}

/// The places of the sources are those of the indexed targets, in order.
pub proof fn law_sourceroots_told(targets: Seq<BspTarget>, roots: Seq<String>)
    requires
        text::texts(roots) == sourceroots_of(specs_of(targets)),
    ensures
        roots.len() == rooted_count(targets),
        forall|i: int|
            0 <= i < targets.len() && rooted(#[trigger] targets[i]) ==> rooted_count(
                targets.take(i),
            ) < roots.len() && Some(roots[rooted_count(targets.take(i)) as int]@) == (
            match targets[i].sourceroot {
                Some(root) => Some(root@),
                None => None,
            }),
{
    lemma_specs(targets);
    assert(text::texts(roots).len() == roots.len());
    assert forall|i: int| 0 <= i < targets.len() && rooted(#[trigger] targets[i]) implies rooted_count(
        targets.take(i),
    ) < roots.len() && Some(roots[rooted_count(targets.take(i)) as int]@) == (
    match targets[i].sourceroot {
        Some(root) => Some(root@),
        None => None,
    }) by {
        let k = rooted_count(targets.take(i)) as int;
        assert(text::texts(roots)[k] == roots[k]@);
    }
}

/// A target as the presentation compiler is told is a target of the build: it has its id, its
/// Scala version, each entry of its class path and its class directory once, its options but
/// for those on SemanticDB, and no source directories.
pub open spec fn configures(config: TargetConfig, target: BspTarget) -> bool {
    let classpath = text::texts(config.classpath@);
    &&& config.bsp_id@ == target.bsp_id@
    &&& config.scala_version@ == target.scala_version@
    &&& classpath.no_duplicates()
    &&& classpath.contains(target.class_directory@)
    &&& forall|j: int|
        0 <= j < target.classpath@.len() ==> classpath.contains((#[trigger] target.classpath@[j])@)
    &&& forall|entry: Seq<char>| #[trigger]
        classpath.contains(entry) ==> entry == target.class_directory@ || text::texts(
            target.classpath@,
        ).contains(entry)
    &&& text::texts(config.scalac_options@) == pc::without_semanticdb(
        text::texts(target.scalac_options@),
    )
    &&& config.source_dirs@.len() == 0
}

proof fn lemma_configs(targets: Seq<BspTarget>)
    ensures
        pc_configs_of(targets).len() == rooted_count(targets),
        forall|i: int|
            0 <= i < targets.len() && rooted(#[trigger] targets[i]) ==> rooted_count(
                targets.take(i),
            ) < rooted_count(targets) && pc_configs_of(targets)[rooted_count(targets.take(i)) as int]
                == pc_config_of(targets[i]),
    decreases targets.len(),
{
    if targets.len() > 0 {
        let earlier = targets.drop_last();
        lemma_configs(earlier);
        assert forall|i: int| 0 <= i < targets.len() && rooted(#[trigger] targets[i]) implies rooted_count(
            targets.take(i),
        ) < rooted_count(targets) && pc_configs_of(targets)[rooted_count(targets.take(i)) as int]
            == pc_config_of(targets[i]) by {
            if i < earlier.len() {
                assert(earlier[i] == targets[i]);
                assert(earlier.take(i) =~= targets.take(i));
            } else {
                assert(targets.take(i) =~= earlier);
            }
        }
    }
}

/// The presentation compiler is told each target that tells where its SemanticDB and its
/// sources are, in order, with its own id, Scala version, class path and options.
pub proof fn law_targets_told_whole(targets: Seq<BspTarget>, configs: Seq<TargetConfig>)
    requires
        pc::target_views(configs) == pc_configs_of(targets),
    ensures
        configs.len() == rooted_count(targets),
        forall|i: int|
            0 <= i < targets.len() && rooted(#[trigger] targets[i]) ==> rooted_count(
                targets.take(i),
            ) < configs.len() && configures(
                configs[rooted_count(targets.take(i)) as int],
                targets[i],
            ),
{
    lemma_configs(targets);
    assert(pc::target_views(configs).len() == configs.len());
    assert forall|i: int| 0 <= i < targets.len() && rooted(#[trigger] targets[i]) implies rooted_count(
        targets.take(i),
    ) < configs.len() && configures(configs[rooted_count(targets.take(i)) as int], targets[i]) by {
        let k = rooted_count(targets.take(i)) as int;
        let target = targets[i];
        let config = configs[k];
        assert(pc::target_views(configs)[k] == config@);
        let given = text::texts(target.classpath@);
        let all = given.push(target.class_directory@);
        let classpath = text::texts(config.classpath@);
        law_distinct(all);
        assert(all[given.len() as int] == target.class_directory@);
        assert(all.contains(target.class_directory@));
        assert forall|j: int| 0 <= j < target.classpath@.len() implies classpath.contains(
            (#[trigger] target.classpath@[j])@,
        ) by {
            assert(all[j] == target.classpath@[j]@);
            assert(all.contains(all[j]));
        }
        assert forall|entry: Seq<char>| #[trigger] classpath.contains(entry) implies entry
            == target.class_directory@ || given.contains(entry) by {
            assert(all.contains(entry));
            let j = all.index_of(entry);
            if j < given.len() {
                assert(given[j] == entry);
            }
        }
        assert(text::texts(config.source_dirs@).len() == config.source_dirs@.len());
    }
}

/// The class path keeps the order of its entries: what was kept of the first entries comes
/// first.
pub proof fn law_distinct_in_order(list: Seq<Seq<char>>, n: int)
    requires
        0 <= n <= list.len(),
    ensures
        distinct(list.take(n)).is_prefix_of(distinct(list)),
    decreases list.len() - n,
{
    if n == list.len() {
        assert(list.take(n) =~= list);
    } else {
        law_distinct_in_order(list, n + 1);
        assert(list.take(n + 1).drop_last() =~= list.take(n));
        let shorter = distinct(list.take(n));
        let longer = distinct(list.take(n + 1));
        assert(shorter =~= longer.subrange(0, shorter.len() as int));
        assert(shorter =~= distinct(list).subrange(0, shorter.len() as int));
    }
}

/// Exactly the targets that are indexed are told to the presentation compiler, in the
/// same order.
pub proof fn law_pc_knows_what_is_indexed(targets: Seq<BspTarget>)
    ensures
        pc_configs_of(targets).map_values(|c: pc_abi::TargetConfigV| c.bsp_id) == specs_of(
            targets,
        ).map_values(|s: TargetSpecV| s.bsp_id),
    decreases targets.len(),
{
    let configs = pc_configs_of(targets).map_values(|c: pc_abi::TargetConfigV| c.bsp_id);
    let specs = specs_of(targets).map_values(|s: TargetSpecV| s.bsp_id);
    if targets.len() > 0 {
        let earlier = targets.drop_last();
        law_pc_knows_what_is_indexed(earlier);
        let c = pc_configs_of(earlier).map_values(|c: pc_abi::TargetConfigV| c.bsp_id);
        let s = specs_of(earlier).map_values(|s: TargetSpecV| s.bsp_id);
        if spec_of(targets.last()) is Some {
            assert(configs =~= c.push(targets.last().bsp_id@));
            assert(specs =~= s.push(targets.last().bsp_id@));
        } else {
            assert(configs =~= c);
            assert(specs =~= s);
        }
    }
    assert(configs =~= specs);
}

/// No entry of the class path of the presentation compiler occurs twice.
pub proof fn law_distinct(list: Seq<Seq<char>>)
    ensures
        distinct(list).no_duplicates(),
        forall|t: Seq<char>| #[trigger] distinct(list).contains(t) <==> list.contains(t),
    decreases list.len(),
{
    if list.len() > 0 {
        let earlier = list.drop_last();
        law_distinct(earlier);
        let kept = distinct(earlier);
        assert(list =~= earlier.push(list.last()));
        assert forall|t: Seq<char>| #[trigger] distinct(list).contains(t) <==> list.contains(t) by {
            if list.contains(t) {
                let i = list.index_of(t);
                if i < earlier.len() {
                    assert(earlier[i] == t);
                    assert(earlier.contains(t));
                    assert(kept.contains(t));
                    let k = kept.index_of(t);
                    assert(distinct(list)[k] == t);
                } else if !kept.contains(list.last()) {
                    assert(distinct(list)[kept.len() as int] == t);
                }
            }
            if distinct(list).contains(t) {
                let k = distinct(list).index_of(t);
                if k < kept.len() {
                    assert(kept[k] == t);
                    assert(kept.contains(t));
                    assert(earlier.contains(t));
                    let i = earlier.index_of(t);
                    assert(list[i] == t);
                } else {
                    assert(list[list.len() - 1] == t);
                }
            }
        }
        if !kept.contains(list.last()) {
            assert forall|i: int, j: int|
                0 <= i < distinct(list).len() && 0 <= j < distinct(list).len() && i
                    != j implies distinct(list)[i] != distinct(list)[j] by {
                if i == kept.len() {
                    assert(kept.contains(kept[j]));
                } else if j == kept.len() {
                    assert(kept.contains(kept[i]));
                }
            }
        }
    }
}

/// A list of targets with their SemanticDB directories, sorted by target: an item is put
/// behind those that do not come after it.
pub open spec fn insert_root(list: Seq<(Seq<char>, Seq<char>)>, item: (Seq<char>, Seq<char>)) -> Seq<
    (Seq<char>, Seq<char>),
>
    decreases list.len(),
{
    if list.len() > 0 && order::before(item.0, list.last().0) {
        insert_root(list.drop_last(), item).push(list.last())
    } else {
        list.push(item)
    }
}

/// The targets with SemanticDB and their directories, sorted by target.
pub open spec fn roots_of(targets: Seq<BspTarget>) -> Seq<(Seq<char>, Seq<char>)>
    decreases targets.len(),
{
    if targets.len() == 0 {
        seq![]
    } else {
        match targets.last().semanticdb_root {
            Some(root) => insert_root(
                roots_of(targets.drop_last()),
                (targets.last().bsp_id@, root@),
            ),
            None => roots_of(targets.drop_last()),
        }
    }
}

/// The ids of the targets, those with SemanticDB or those without.
pub open spec fn ids_of(targets: Seq<BspTarget>, indexable: bool) -> Seq<Seq<char>>
    decreases targets.len(),
{
    if targets.len() == 0 {
        seq![]
    } else if (targets.last().semanticdb_root is Some) == indexable {
        ids_of(targets.drop_last(), indexable).push(targets.last().bsp_id@)
    } else {
        ids_of(targets.drop_last(), indexable)
    }
}

/// The texts of a list of pairs.
pub open spec fn pair_views(list: Seq<(String, String)>) -> Seq<(Seq<char>, Seq<char>)> {
    list.map_values(|p: (String, String)| (p.0@, p.1@))
}

/// `found` is the inventory of a model: all targets and those without SemanticDB, sorted,
/// and the directories of the others.
pub open spec fn is_inventory(found: DoctorTargets, targets: Seq<BspTarget>) -> bool {
    &&& order::sorted(text::texts(found.all_ids@))
    &&& text::texts(found.all_ids@).to_multiset() == (ids_of(targets, true) + ids_of(
        targets,
        false,
    )).to_multiset()
    &&& order::sorted(text::texts(found.unavailable_ids@))
    &&& text::texts(found.unavailable_ids@).to_multiset() == ids_of(targets, false).to_multiset()
    &&& pair_views(found.indexable_roots@) == roots_of(targets)
}

fn ids(targets: &Vec<BspTarget>, indexable: bool) -> (list: Vec<String>)
    ensures
        text::texts(list@) == ids_of(targets@, indexable),
{
    let ghost all = targets@;
    let mut list: Vec<String> = Vec::new();
    let mut i: usize = 0;
    assert(all.take(0) =~= seq![]);
    assert(text::texts(list@) =~= seq![]);
    while i < targets.len()
        invariant
            i <= targets@.len(),
            all == targets@,
            text::texts(list@) == ids_of(all.take(i as int), indexable),
        decreases targets.len() - i,
    {
        let ghost before = text::texts(list@);
        assert(all.take(i + 1).drop_last() =~= all.take(i as int));
        if targets[i].semanticdb_root.is_some() == indexable {
            list.push(targets[i].bsp_id.clone());
            assert(text::texts(list@) =~= before.push(all[i as int].bsp_id@));
        }
        i += 1;
    }
    assert(all.take(i as int) =~= all);
    list
}

proof fn lemma_insert_root(
    list: Seq<(Seq<char>, Seq<char>)>,
    item: (Seq<char>, Seq<char>),
    at: int,
)
    requires
        0 <= at <= list.len(),
        forall|j: int| at <= j < list.len() ==> order::before(item.0, (#[trigger] list[j]).0),
        at > 0 ==> !order::before(item.0, list[at - 1].0),
    ensures
        insert_root(list, item) == list.insert(at, item),
    decreases list.len(),
{
    if at == list.len() {
        assert(list.insert(at, item) =~= list.push(item));
    } else {
        let shorter = list.drop_last();
        assert(list[list.len() - 1] == list.last());
        lemma_insert_root(shorter, item, at);
        assert(list.insert(at, item) =~= shorter.insert(at, item).push(list.last()));
    }
}

fn roots(targets: &Vec<BspTarget>) -> (list: Vec<(String, String)>)
    ensures
        pair_views(list@) == roots_of(targets@),
{
    let ghost all = targets@;
    let mut list: Vec<(String, String)> = Vec::new();
    let mut i: usize = 0;
    assert(all.take(0) =~= seq![]);
    assert(pair_views(list@) =~= seq![]);
    while i < targets.len()
        invariant
            i <= targets@.len(),
            all == targets@,
            pair_views(list@) == roots_of(all.take(i as int)),
        decreases targets.len() - i,
    {
        let ghost before = pair_views(list@);
        assert(all.take(i + 1).drop_last() =~= all.take(i as int));
        match &targets[i].semanticdb_root {
            Some(root) => {
                let ghost item = (all[i as int].bsp_id@, root@);
                let mut at: usize = list.len();
                while at > 0 && order::is_before(targets[i].bsp_id.as_str(), list[at - 1].0.as_str())
                    invariant
                        at <= list@.len(),
                        i < targets@.len(),
                        all == targets@,
                        item.0 == all[i as int].bsp_id@,
                        before == pair_views(list@),
                        forall|j: int|
                            at <= j < before.len() ==> order::before(
                                item.0,
                                (#[trigger] before[j]).0,
                            ),
                    decreases at,
                {
                    assert(before[at - 1].0 == list@[at - 1].0@);
                    at -= 1;
                }
                proof {
                    if at > 0 {
                        assert(before[at - 1].0 == list@[at - 1].0@);
                    }
                    lemma_insert_root(before, item, at as int);
                }
                list.insert(at, (targets[i].bsp_id.clone(), root.clone()));
                assert(pair_views(list@) =~= before.insert(at as int, item));
            },
            None => {},
        }
        i += 1;
    }
    assert(all.take(i as int) =~= all);
    list
}

/// The inventory of a model, without the identity of the build server.
pub fn doctor_targets_of(model: &BspProjectModel) -> (found: DoctorTargets)
    ensures
        is_inventory(found, model.targets@),
        found.server_name is None,
        found.server_version is None,
{
    let mut all = ids(&model.targets, true);
    let mut lacking = ids(&model.targets, false);
    let unavailable_ids = order::sort(lacking.as_slice());
    let ghost parts = (all@, lacking@);
    all.append(&mut lacking);
    assert(text::texts(all@) =~= text::texts(parts.0) + text::texts(parts.1));
    DoctorTargets {
        server_name: None,
        server_version: None,
        all_ids: order::sort(all.as_slice()),
        unavailable_ids,
        indexable_roots: roots(&model.targets),
    }
}

/// How many targets have SemanticDB, or how many have none.
pub open spec fn having(targets: Seq<BspTarget>, indexable: bool) -> nat
    decreases targets.len(),
{
    if targets.len() == 0 {
        0
    } else {
        having(targets.drop_last(), indexable) + (if (targets.last().semanticdb_root is Some)
            == indexable {
            1nat
        } else {
            0
        })
    }
}

/// The targets with SemanticDB, and those without, are listed by their ids, in the order of
/// the model and without a gap.
pub proof fn law_ids_listed(targets: Seq<BspTarget>, indexable: bool)
    ensures
        ids_of(targets, indexable).len() == having(targets, indexable),
        forall|i: int|
            0 <= i < targets.len() && ((#[trigger] targets[i]).semanticdb_root is Some)
                == indexable ==> having(targets.take(i), indexable) < having(targets, indexable)
                && ids_of(targets, indexable)[having(targets.take(i), indexable) as int]
                == targets[i].bsp_id@,
    decreases targets.len(),
{
    if targets.len() > 0 {
        let earlier = targets.drop_last();
        law_ids_listed(earlier, indexable);
        assert forall|i: int|
            0 <= i < targets.len() && ((#[trigger] targets[i]).semanticdb_root is Some)
                == indexable implies having(targets.take(i), indexable) < having(
            targets,
            indexable,
        ) && ids_of(targets, indexable)[having(targets.take(i), indexable) as int]
            == targets[i].bsp_id@ by {
            if i < earlier.len() {
                assert(earlier[i] == targets[i]);
                assert(earlier.take(i) =~= targets.take(i));
            } else {
                assert(targets.take(i) =~= earlier);
            }
        }
    }
}

proof fn lemma_roots(targets: Seq<BspTarget>)
    ensures
        roots_of(targets).len() == having(targets, true),
        forall|i: int|
            0 <= i < targets.len() && (#[trigger] targets[i]).semanticdb_root is Some
                ==> roots_of(targets).contains(
                (targets[i].bsp_id@, targets[i].semanticdb_root->Some_0@),
            ),
    decreases targets.len(),
{
    if targets.len() > 0 {
        let earlier = targets.drop_last();
        let last = targets.last();
        lemma_roots(earlier);
        match last.semanticdb_root {
            Some(root) => {
                let item = (last.bsp_id@, root@);
                lemma_insert_holds(roots_of(earlier), item);
                assert forall|i: int|
                    0 <= i < targets.len() && (
                    #[trigger] targets[i]).semanticdb_root is Some implies roots_of(
                    targets,
                ).contains((targets[i].bsp_id@, targets[i].semanticdb_root->Some_0@)) by {
                    if i < earlier.len() {
                        assert(earlier[i] == targets[i]);
                    }
                }
            },
            None => {
                assert forall|i: int|
                    0 <= i < targets.len() && (
                    #[trigger] targets[i]).semanticdb_root is Some implies roots_of(
                    targets,
                ).contains((targets[i].bsp_id@, targets[i].semanticdb_root->Some_0@)) by {
                    assert(earlier[i] == targets[i]);
                }
            },
        }
    }
}

proof fn lemma_insert_holds(list: Seq<(Seq<char>, Seq<char>)>, item: (Seq<char>, Seq<char>))
    ensures
        insert_root(list, item).len() == list.len() + 1,
        insert_root(list, item).contains(item),
        forall|other: (Seq<char>, Seq<char>)| #[trigger]
            list.contains(other) ==> insert_root(list, item).contains(other),
    decreases list.len(),
{
    let result = insert_root(list, item);
    if list.len() > 0 && order::before(item.0, list.last().0) {
        let shorter = list.drop_last();
        lemma_insert_holds(shorter, item);
        let inner = insert_root(shorter, item);
        assert(result[inner.index_of(item)] == item);
        assert forall|other: (Seq<char>, Seq<char>)| #[trigger]
            list.contains(other) implies result.contains(other) by {
            let k = list.index_of(other);
            if k < shorter.len() {
                assert(shorter[k] == other);
                assert(shorter.contains(other));
                assert(result[inner.index_of(other)] == other);
            } else {
                assert(result[inner.len() as int] == other);
            }
        }
    } else {
        assert(result[list.len() as int] == item);
        assert forall|other: (Seq<char>, Seq<char>)| #[trigger]
            list.contains(other) implies result.contains(other) by {
            assert(result[list.index_of(other)] == other);
        }
    }
}

/// The inventory of a model counts each target once: every id is listed, an id without
/// SemanticDB among those that lack it too, and one with it together with its directory.
pub proof fn law_inventory_whole(found: DoctorTargets, targets: Seq<BspTarget>)
    requires
        is_inventory(found, targets),
    ensures
        found.all_ids@.len() == targets.len(),
        found.unavailable_ids@.len() == having(targets, false),
        found.indexable_roots@.len() == having(targets, true),
        forall|i: int|
            0 <= i < targets.len() ==> text::texts(found.all_ids@).contains(
                (#[trigger] targets[i]).bsp_id@,
            ),
        forall|i: int|
            0 <= i < targets.len() && (#[trigger] targets[i]).semanticdb_root is None
                ==> text::texts(found.unavailable_ids@).contains(targets[i].bsp_id@),
        forall|i: int|
            0 <= i < targets.len() && (#[trigger] targets[i]).semanticdb_root is Some
                ==> pair_views(found.indexable_roots@).contains(
                (targets[i].bsp_id@, targets[i].semanticdb_root->Some_0@),
            ),
{
    broadcast use vstd::seq_lib::group_to_multiset_ensures;

    let with = ids_of(targets, true);
    let lacking = ids_of(targets, false);
    law_ids_listed(targets, true);
    law_ids_listed(targets, false);
    lemma_ids_bounded(targets);
    lemma_roots(targets);
    let all = text::texts(found.all_ids@);
    let unavailable = text::texts(found.unavailable_ids@);
    assert(all.to_multiset().len() == (with + lacking).to_multiset().len());
    assert(unavailable.to_multiset().len() == lacking.to_multiset().len());
    assert(pair_views(found.indexable_roots@).len() == found.indexable_roots@.len());
    assert forall|i: int| 0 <= i < targets.len() implies all.contains(
        (#[trigger] targets[i]).bsp_id@,
    ) by {
        let id = targets[i].bsp_id@;
        if targets[i].semanticdb_root is Some {
            assert((with + lacking)[having(targets.take(i), true) as int] == id);
        } else {
            assert((with + lacking)[with.len() as int + having(targets.take(i), false)] == id);
        }
        assert((with + lacking).to_multiset().count(id) > 0);
        assert(all.to_multiset().count(id) > 0);
    }
    assert forall|i: int|
        0 <= i < targets.len() && (
        #[trigger] targets[i]).semanticdb_root is None implies unavailable.contains(
        targets[i].bsp_id@,
    ) by {
        let id = targets[i].bsp_id@;
        assert(lacking[having(targets.take(i), false) as int] == id);
        assert(lacking.to_multiset().count(id) > 0);
        assert(unavailable.to_multiset().count(id) > 0);
    }
}

/// The directories of an inventory are sorted by target.
pub proof fn law_roots_sorted(targets: Seq<BspTarget>)
    ensures
        forall|i: int, j: int|
            0 <= i < j < roots_of(targets).len() ==> !order::before(
                (#[trigger] roots_of(targets)[j]).0,
                (#[trigger] roots_of(targets)[i]).0,
            ),
    decreases targets.len(),
{
    if targets.len() > 0 {
        law_roots_sorted(targets.drop_last());
        match targets.last().semanticdb_root {
            Some(root) => {
                lemma_insert_sorted(
                    roots_of(targets.drop_last()),
                    (targets.last().bsp_id@, root@),
                );
            },
            None => {},
        }
    }
}

proof fn lemma_insert_sorted(list: Seq<(Seq<char>, Seq<char>)>, item: (Seq<char>, Seq<char>))
    requires
        forall|i: int, j: int|
            0 <= i < j < list.len() ==> !order::before(
                (#[trigger] list[j]).0,
                (#[trigger] list[i]).0,
            ),
    ensures
        forall|i: int, j: int|
            0 <= i < j < insert_root(list, item).len() ==> !order::before(
                (#[trigger] insert_root(list, item)[j]).0,
                (#[trigger] insert_root(list, item)[i]).0,
            ),
        forall|i: int|
            0 <= i < insert_root(list, item).len() ==> (#[trigger] insert_root(list, item)[i] == item
                || list.contains(insert_root(list, item)[i])),
    decreases list.len(),
{
    let result = insert_root(list, item);
    if list.len() > 0 && order::before(item.0, list.last().0) {
        let shorter = list.drop_last();
        lemma_insert_sorted(shorter, item);
        let inner = insert_root(shorter, item);
        assert forall|i: int| 0 <= i < result.len() implies #[trigger] result[i] == item
            || list.contains(result[i]) by {
            if i < inner.len() {
                assert(result[i] == inner[i]);
                if inner[i] != item {
                    assert(shorter.contains(inner[i]));
                    let k = shorter.index_of(inner[i]);
                    assert(list[k] == inner[i]);
                }
            } else {
                assert(list[list.len() - 1] == result[i]);
            }
        }
        assert forall|i: int, j: int| 0 <= i < j < result.len() implies !order::before(
            (#[trigger] result[j]).0,
            (#[trigger] result[i]).0,
        ) by {
            if j == inner.len() {
                assert(result[j] == list.last());
                assert(result[i] == inner[i]);
                order::lemma_before_total(item.0, list.last().0);
                if inner[i] != item {
                    assert(shorter.contains(inner[i]));
                    let k = shorter.index_of(inner[i]);
                    assert(list[k] == inner[i]);
                    assert(list[list.len() - 1] == list.last());
                }
            } else {
                assert(result[i] == inner[i] && result[j] == inner[j]);
            }
        }
    } else {
        assert forall|i: int| 0 <= i < result.len() implies #[trigger] result[i] == item
            || list.contains(result[i]) by {
            if i < list.len() {
                assert(list[i] == result[i]);
            }
        }
        assert forall|i: int, j: int| 0 <= i < j < result.len() implies !order::before(
            (#[trigger] result[j]).0,
            (#[trigger] result[i]).0,
        ) by {
            if j == list.len() {
                assert(list[list.len() - 1] == list.last());
                if i < list.len() - 1 {
                    // The item does not come before the last, nor the last before this one.
                    assert(!order::before(list[list.len() - 1].0, list[i].0));
                    if order::before(item.0, list[i].0) {
                        order::lemma_before_total(list[i].0, list.last().0);
                        if list[i].0 != list.last().0 {
                            order::lemma_before_transitive(item.0, list[i].0, list.last().0);
                        }
                    }
                }
            }
        }
    }
}

/// `keys` may be the normal forms of the URIs of a list of owners.
pub open spec fn keyed<N: Fn(&str) -> String>(
    normal_uri: N,
    entries: Seq<(String, String)>,
    keys: Seq<Seq<char>>,
) -> bool {
    &&& keys.len() == entries.len()
    &&& forall|i: int|
        0 <= i < keys.len() ==> paths::normalizes(
            normal_uri,
            (#[trigger] entries[i]).0@,
            keys[i],
        )
}

/// Who owns each URI: the entries of a model, with the given normal forms of their URIs. Of
/// two entries with the same normal form the later one counts.
pub open spec fn owners_of(entries: Seq<(String, String)>, keys: Seq<Seq<char>>) -> Map<
    Seq<char>,
    Seq<char>,
>
    decreases entries.len(),
{
    if entries.len() == 0 {
        Map::empty()
    } else {
        owners_of(entries.drop_last(), keys.drop_last()).insert(keys.last(), entries.last().1@)
    }
}

/// `owners` may be who owns each URI of a list of entries.
pub open spec fn owns<N: Fn(&str) -> String>(
    normal_uri: N,
    entries: Seq<(String, String)>,
    owners: Map<Seq<char>, Seq<char>>,
) -> bool {
    exists|keys: Seq<Seq<char>>| #[trigger]
        keyed(normal_uri, entries, keys) && owners == owners_of(entries, keys)
}

/// Exactly the normal forms of the URIs of a model have owners. The owner of one that no
/// later entry shares is that of its entry.
pub proof fn law_owned(entries: Seq<(String, String)>, keys: Seq<Seq<char>>)
    requires
        keys.len() == entries.len(),
    ensures
        owners_of(entries, keys).dom() == keys.to_set(),
        forall|i: int|
            0 <= i < keys.len() && !keys.skip(i + 1).contains(keys[i]) ==> owners_of(entries, keys)[
            #[trigger] keys[i]] == entries[i].1@,
    decreases entries.len(),
{
    if entries.len() == 0 {
        assert(owners_of(entries, keys).dom() =~= keys.to_set());
    } else {
        let first = keys.drop_last();
        let last = keys.last();
        law_owned(entries.drop_last(), first);
        assert(keys =~= first.push(last));
        assert forall|uri: Seq<char>| keys.contains(uri) <==> first.contains(uri) || uri == last by {
            if first.contains(uri) {
                assert(keys[first.index_of(uri)] == uri);
            }
            if keys.contains(uri) && uri != last {
                assert(first[keys.index_of(uri)] == uri);
            }
            assert(keys[keys.len() - 1] == last);
        }
        assert(owners_of(entries, keys).dom() =~= keys.to_set());
        assert forall|i: int|
            0 <= i < keys.len() && !keys.skip(i + 1).contains(keys[i]) implies owners_of(
            entries,
            keys,
        )[#[trigger] keys[i]] == entries[i].1@ by {
            if i < keys.len() - 1 {
                assert(keys.skip(i + 1)[keys.len() - i - 2] == last);
                assert(keys[i] == first[i]);
                if first.skip(i + 1).contains(first[i]) {
                    let k = first.skip(i + 1).index_of(first[i]);
                    assert(keys.skip(i + 1)[k] == keys[i]);
                }
            }
        }
    }
}

/// In a model where no URI has two owners, and whose URIs are in normal form, each entry
/// tells the owner of its URI.
pub proof fn law_each_entry_owns(model: BspProjectModel)
    requires
        model.owned_once(),
    ensures
        forall|i: int|
            0 <= i < model.uri_to_target@.len() ==> owners_of(
                model.uri_to_target@,
                owned_uris(model.uri_to_target@),
            )[(#[trigger] model.uri_to_target@[i]).0@] == model.uri_to_target@[i].1@,
{
    let entries = model.uri_to_target@;
    let uris = owned_uris(entries);
    law_owned(entries, uris);
    assert forall|i: int| 0 <= i < entries.len() implies owners_of(entries, uris)[(
    #[trigger] entries[i]).0@] == entries[i].1@ by {
        assert(uris[i] == entries[i].0@);
        if uris.skip(i + 1).contains(uris[i]) {
            let k = uris.skip(i + 1).index_of(uris[i]);
            assert(uris[i + 1 + k] == uris[i]);
        }
    }
}

/// The owners that a map holds.
pub open spec fn owner_views(owners: Map<Seq<char>, String>) -> Map<Seq<char>, Seq<char>> {
    owners.map_values(|id: String| id@)
}

/// Who owns each URI of a model. The machine gives the normal forms of the URIs.
pub fn uri_owners<N: Fn(&str) -> String>(model: &BspProjectModel, normal_uri: &N) -> (owners:
    StrMap<String>)
    requires
        forall|uri: &str| normal_uri.requires((uri,)),
    ensures
        owns(*normal_uri, model.uri_to_target@, owner_views(owners@)),
{
    let ghost mut keys: Seq<Seq<char>> = Seq::empty();
    let ghost all = model.uri_to_target@;
    let mut owners: StrMap<String> = StrMap::new();
    let mut i: usize = 0;
    assert(all.take(0) =~= seq![]);
    assert(owner_views(owners@) =~= Map::empty());
    while i < model.uri_to_target.len()
        invariant
            i <= model.uri_to_target@.len(),
            all == model.uri_to_target@,
            forall|uri: &str| normal_uri.requires((uri,)),
            keyed(*normal_uri, all.take(i as int), keys),
            owner_views(owners@) == owners_of(all.take(i as int), keys),
        decreases model.uri_to_target.len() - i,
    {
        let ghost before = owners@;
        let entry = &model.uri_to_target[i];
        let uri = paths::normal_uri(normal_uri, entry.0.as_str());
        let ghost key = uri@;
        proof {
            let longer = keys.push(key);
            assert(longer.drop_last() =~= keys);
            let now = all.take(i + 1);
            assert forall|j: int| 0 <= j < longer.len() implies paths::normalizes(
                *normal_uri,
                (#[trigger] now[j]).0@,
                longer[j],
            ) by {
                if j < keys.len() {
                    assert(now[j] == all.take(i as int)[j]);
                }
            }
            keys = longer;
        }
        owners.insert(uri, entry.1.clone());
        assert(all.take(i + 1).drop_last() =~= all.take(i as int));
        assert(owner_views(owners@) =~= owner_views(before).insert(key, all[i as int].1@));
        i += 1;
    }
    assert(all.take(i as int) =~= all);
    owners
}

/// A place in the index.
#[derive(Debug, PartialEq, Eq)]
pub struct Loc {
    pub uri: String,
    pub span: Span,
}

/// A span as a range of the presentation compiler.
pub open spec fn rng_of_span(span: Span) -> Rng {
    Rng {
        start_line: span.start_line,
        start_character: span.start_char,
        end_line: span.end_line,
        end_character: span.end_char,
    }
}

fn span_rng(span: &Span) -> (range: Rng)
    ensures
        range == rng_of_span(*span),
{
    Rng {
        start_line: span.start_line,
        start_character: span.start_char,
        end_line: span.end_line,
        end_character: span.end_char,
    }
}

/// A place in the index as a location in the workspace.
pub open spec fn workspace_location(loc: Loc) -> pc_abi::Location {
    pc_abi::Location {
        uri: loc.uri,
        range: rng_of_span(loc.span),
        origin: pc_abi::ORIGIN_WORKSPACE,
    }
}

/// Places in the index as locations in the workspace.
pub open spec fn workspace_locations(locations: Seq<Loc>) -> Seq<pc_abi::Location> {
    locations.map_values(|loc: Loc| workspace_location(loc))
}

/// A range of the presentation compiler has the coordinates of a span.
pub open spec fn covers_span(range: Rng, span: Span) -> bool {
    &&& range.start_line == span.start_line
    &&& range.start_character == span.start_char
    &&& range.end_line == span.end_line
    &&& range.end_character == span.end_char
}

/// Each place in the index and each method that was found is answered, in order, with its
/// own URI and coordinates; a place is in the workspace, and a method keeps its symbol and
/// its kind.
pub proof fn law_each_place_answered(locations: Seq<Loc>, hits: Seq<MethodHit>)
    ensures
        workspace_locations(locations).len() == locations.len(),
        forall|k: int|
            0 <= k < locations.len() ==> {
                let answered = #[trigger] workspace_locations(locations)[k];
                &&& answered.uri == locations[k].uri
                &&& covers_span(answered.range, locations[k].span)
                &&& answered.origin == 0
            },
        method_hits_of(hits).len() == hits.len(),
        forall|k: int|
            0 <= k < hits.len() ==> {
                let answered = #[trigger] method_hits_of(hits)[k];
                &&& answered.uri == hits[k].uri
                &&& answered.symbol == hits[k].symbol
                &&& answered.kind == hits[k].kind
                &&& covers_span(answered.range, hits[k].span)
            },
{
}

/// Places in the index, as the presentation compiler is answered.
pub fn locations_result(locations: &Vec<Loc>) -> (result: Vec<pc_abi::Location>)
    ensures
        result@ == workspace_locations(locations@),
{
    let ghost all = workspace_locations(locations@);
    let mut result: Vec<pc_abi::Location> = Vec::new();
    let mut i: usize = 0;
    while i < locations.len()
        invariant
            i <= locations@.len(),
            all == workspace_locations(locations@),
            result@ == all.take(i as int),
        decreases locations.len() - i,
    {
        let loc = &locations[i];
        result.push(
            pc_abi::Location {
                uri: loc.uri.clone(),
                range: span_rng(&loc.span),
                origin: pc_abi::ORIGIN_WORKSPACE,
            },
        );
        i += 1;
        assert(all.take(i as int) =~= all.take(i - 1).push(all[i - 1]));
    }
    assert(all.take(i as int) =~= all);
    result
}

/// A method that a search of the index found.
#[derive(Debug, PartialEq, Eq)]
pub struct MethodHit {
    pub uri: String,
    pub symbol: String,
    pub kind: i32,
    pub span: Span,
}

/// A found method as the presentation compiler is answered.
pub open spec fn method_hit_of(hit: MethodHit) -> pc_abi::MethodHit {
    pc_abi::MethodHit {
        uri: hit.uri,
        symbol: hit.symbol,
        kind: hit.kind,
        range: rng_of_span(hit.span),
    }
}

/// Found methods as the presentation compiler is answered.
pub open spec fn method_hits_of(hits: Seq<MethodHit>) -> Seq<pc_abi::MethodHit> {
    hits.map_values(|hit: MethodHit| method_hit_of(hit))
}

/// Found methods, as the presentation compiler is answered.
pub fn method_hits_result(hits: &Vec<MethodHit>) -> (result: Vec<pc_abi::MethodHit>)
    ensures
        result@ == method_hits_of(hits@),
{
    let ghost all = method_hits_of(hits@);
    let mut result: Vec<pc_abi::MethodHit> = Vec::new();
    let mut i: usize = 0;
    while i < hits.len()
        invariant
            i <= hits@.len(),
            all == method_hits_of(hits@),
            result@ == all.take(i as int),
        decreases hits.len() - i,
    {
        let hit = &hits[i];
        result.push(
            pc_abi::MethodHit {
                uri: hit.uri.clone(),
                symbol: hit.symbol.clone(),
                kind: hit.kind,
                range: span_rng(&hit.span),
            },
        );
        i += 1;
        assert(all.take(i as int) =~= all.take(i - 1).push(all[i - 1]));
    }
    assert(all.take(i as int) =~= all);
    result
}

/// The line for a message of the build server. Its errors and warnings are the build's,
/// not the server's, and are warnings here.
pub fn log_build_message(kind: &str, message_type: i32, message: &str) -> (record: LogRecord)
    ensures
        record.says(
            if message_type == 1 || message_type == 2 {
                Level::Warn
            } else {
                Level::Info
            },
            "bsp"@,
            kind@ + ": "@ + message@,
        ),
{
    LogRecord {
        level: if message_type == 1 || message_type == 2 {
            Level::Warn
        } else {
            Level::Info
        },
        area: "bsp".to_owned(),
        message: text::with(text::with(kind.to_owned(), ": "), message),
    }
}

/// The name of a status of the build server.
pub open spec fn status_name(status_code: i32) -> Seq<char> {
    if status_code == 2 {
        "ERROR"@
    } else if status_code == 3 {
        "CANCELLED"@
    } else {
        numerals::decimal_int(status_code as int)
    }
}

/// The name of a status of the build server.
pub fn bsp_status_name(status_code: i32) -> (name: String)
    ensures
        name@ == status_name(status_code),
{
    if status_code == 2 {
        "ERROR".to_owned()
    } else if status_code == 3 {
        "CANCELLED".to_owned()
    } else {
        numerals::numeral_int(status_code as i64)
    }
}

/// What the build server answered to a compilation.
#[derive(Debug, PartialEq, Eq)]
pub enum BspCompileOutcome {
    Done,
    Failed { status_code: i32 },
    Error { message: String },
}

/// How a compilation ended.
#[derive(Debug, PartialEq, Eq)]
pub enum CompileOutcome {
    Done,
    Failed { reason: String },
}

/// How a compilation ended, from what the build server answered.
pub fn compile_outcome(answer: BspCompileOutcome) -> (outcome: CompileOutcome)
    ensures
        match answer {
            BspCompileOutcome::Done => outcome is Done,
            BspCompileOutcome::Failed { status_code } => outcome matches CompileOutcome::Failed {
                reason,
            } && reason@ == status_name(status_code),
            BspCompileOutcome::Error { message } => outcome == (CompileOutcome::Failed {
                reason: message,
            }),
        },
{
    match answer {
        BspCompileOutcome::Done => CompileOutcome::Done,
        BspCompileOutcome::Failed { status_code } => CompileOutcome::Failed {
            reason: bsp_status_name(status_code),
        },
        BspCompileOutcome::Error { message } => CompileOutcome::Failed { reason: message },
    }
}

/// The line on a model: how many targets it has, and which lack SemanticDB.
pub open spec fn summary_of(targets: Seq<BspTarget>) -> Seq<char> {
    let indexable = ids_of(targets, true).len();
    let lacking = ids_of(targets, false);
    "build model loaded: "@ + numerals::decimal(indexable + lacking.len()) + " Scala 3 target(s), "@
        + numerals::decimal(indexable) + " indexable, "@ + numerals::decimal(lacking.len())
        + " without SemanticDB"@ + (if lacking.len() == 0 {
        seq![]
    } else {
        " (no -Xsemanticdb: "@ + text::joined(lacking, ", "@) + ")"@
    })
}

proof fn lemma_ids_bounded(targets: Seq<BspTarget>)
    ensures
        ids_of(targets, true).len() + ids_of(targets, false).len() == targets.len(),
    decreases targets.len(),
{
    if targets.len() > 0 {
        lemma_ids_bounded(targets.drop_last());
    }
}

/// The line on a model.
pub fn model_summary(model: &BspProjectModel) -> (line: String)
    ensures
        line@ == summary_of(model.targets@),
{
    let indexable = ids(&model.targets, true).len();
    let lacking = ids(&model.targets, false);
    proof {
        lemma_ids_bounded(model.targets@);
    }
    assert(model.targets.len() == model.targets@.len());
    let s = text::with(
        "build model loaded: ".to_owned(),
        numerals::numeral((indexable + lacking.len()) as u64).as_str(),
    );
    let s = text::with(s, " Scala 3 target(s), ");
    let s = text::with(s, numerals::numeral(indexable as u64).as_str());
    let s = text::with(s, " indexable, ");
    let s = text::with(s, numerals::numeral(lacking.len() as u64).as_str());
    let s = text::with(s, " without SemanticDB");
    let tail = if lacking.len() == 0 {
        String::new()
    } else {
        let t = text::with(
            " (no -Xsemanticdb: ".to_owned(),
            text::join(lacking.as_slice(), ", ").as_str(),
        );
        text::with(t, ")")
    };
    text::with(s, tail.as_str())
}

/// A document that is handed to the presentation compiler.
#[derive(Debug, PartialEq, Eq)]
pub struct OpenBuffer {
    pub target_id: String,
    pub uri: String,
    pub text: String,
}

/// The model of a document that is handed to the presentation compiler: its target, its
/// URI and its text.
pub open spec fn buffer_views(buffers: Seq<OpenBuffer>) -> Seq<(Seq<char>, Seq<char>, Seq<char>)> {
    buffers.map_values(|b: OpenBuffer| (b.target_id@, b.uri@, b.text@))
}

/// The open documents that a target owns, in the order of the URIs.
pub open spec fn owned_buffers(
    docs: Map<Seq<char>, (Seq<char>, i64)>,
    owners: Map<Seq<char>, Seq<char>>,
    uris: Seq<Seq<char>>,
) -> Seq<(Seq<char>, Seq<char>, Seq<char>)>
    decreases uris.len(),
{
    if uris.len() == 0 {
        seq![]
    } else {
        let uri = uris.last();
        let earlier = owned_buffers(docs, owners, uris.drop_last());
        if docs.contains_key(uri) && owners.contains_key(uri) {
            earlier.push((owners[uri], uri, docs[uri].0))
        } else {
            earlier
        }
    }
}

/// Every open document that a target owns is handed over once, with its own target, URI and
/// whole text, in the order of the URIs, and no other document is.
pub proof fn law_owned_documents_replayed(
    docs: Map<Seq<char>, (Seq<char>, i64)>,
    owners: Map<Seq<char>, Seq<char>>,
    uris: Seq<Seq<char>>,
    buffers: Seq<OpenBuffer>,
)
    requires
        order::strictly_sorted(uris),
        uris.to_set() == docs.dom(),
        buffer_views(buffers) == owned_buffers(docs, owners, uris),
    ensures
        forall|uri: Seq<char>| #[trigger]
            docs.contains_key(uri) && owners.contains_key(uri) ==> exists|k: int|
                0 <= k < buffers.len() && (#[trigger] buffers[k]).uri@ == uri,
        forall|k: int|
            0 <= k < buffers.len() ==> {
                let buffer = #[trigger] buffers[k];
                &&& docs.contains_key(buffer.uri@)
                &&& owners.contains_key(buffer.uri@)
                &&& buffer.target_id@ == owners[buffer.uri@]
                &&& buffer.text@ == docs[buffer.uri@].0
            },
        forall|j: int, k: int|
            0 <= j < k < buffers.len() ==> order::before(
                (#[trigger] buffers[j]).uri@,
                (#[trigger] buffers[k]).uri@,
            ),
{
    let views = buffer_views(buffers);
    lemma_owned_buffers(docs, owners, uris);
    assert forall|uri: Seq<char>| #[trigger]
        docs.contains_key(uri) && owners.contains_key(uri) implies exists|k: int|
        0 <= k < buffers.len() && (#[trigger] buffers[k]).uri@ == uri by {
        assert(uris.to_set().contains(uri));
        assert(uris.contains(uri));
        let at = uris.index_of(uri);
        assert(uris[at] == uri);
        let k = views.index_of((owners[uri], uri, docs[uri].0));
        assert(views[k] == (buffers[k].target_id@, buffers[k].uri@, buffers[k].text@));
    }
    assert forall|k: int| 0 <= k < buffers.len() implies {
        let buffer = #[trigger] buffers[k];
        &&& docs.contains_key(buffer.uri@)
        &&& owners.contains_key(buffer.uri@)
        &&& buffer.target_id@ == owners[buffer.uri@]
        &&& buffer.text@ == docs[buffer.uri@].0
    } by {
        assert(views[k] == (buffers[k].target_id@, buffers[k].uri@, buffers[k].text@));
    }
    assert forall|j: int, k: int| 0 <= j < k < buffers.len() implies order::before(
        (#[trigger] buffers[j]).uri@,
        (#[trigger] buffers[k]).uri@,
    ) by {
        assert(views[j].1 == buffers[j].uri@ && views[k].1 == buffers[k].uri@);
    }
}

proof fn lemma_owned_buffers(
    docs: Map<Seq<char>, (Seq<char>, i64)>,
    owners: Map<Seq<char>, Seq<char>>,
    uris: Seq<Seq<char>>,
)
    requires
        order::strictly_sorted(uris),
    ensures
        forall|i: int|
            0 <= i < uris.len() && docs.contains_key(#[trigger] uris[i]) && owners.contains_key(
                uris[i],
            ) ==> owned_buffers(docs, owners, uris).contains(
                (owners[uris[i]], uris[i], docs[uris[i]].0),
            ),
        forall|k: int|
            0 <= k < owned_buffers(docs, owners, uris).len() ==> {
                let buffer = #[trigger] owned_buffers(docs, owners, uris)[k];
                &&& uris.contains(buffer.1)
                &&& docs.contains_key(buffer.1)
                &&& owners.contains_key(buffer.1)
                &&& buffer.0 == owners[buffer.1]
                &&& buffer.2 == docs[buffer.1].0
            },
        forall|j: int, k: int|
            0 <= j < k < owned_buffers(docs, owners, uris).len() ==> order::before(
                (#[trigger] owned_buffers(docs, owners, uris)[j]).1,
                (#[trigger] owned_buffers(docs, owners, uris)[k]).1,
            ),
    decreases uris.len(),
{
    if uris.len() > 0 {
        let shorter = uris.drop_last();
        let last = uris.last();
        lemma_owned_buffers(docs, owners, shorter);
        let earlier = owned_buffers(docs, owners, shorter);
        let all = owned_buffers(docs, owners, uris);
        assert forall|i: int|
            0 <= i < uris.len() && docs.contains_key(#[trigger] uris[i]) && owners.contains_key(
                uris[i],
            ) implies all.contains((owners[uris[i]], uris[i], docs[uris[i]].0)) by {
            let item = (owners[uris[i]], uris[i], docs[uris[i]].0);
            if i < shorter.len() {
                assert(shorter[i] == uris[i]);
                assert(all[earlier.index_of(item)] == item);
            } else {
                assert(all[earlier.len() as int] == item);
            }
        }
        assert forall|k: int| 0 <= k < all.len() implies {
            let buffer = #[trigger] all[k];
            &&& uris.contains(buffer.1)
            &&& docs.contains_key(buffer.1)
            &&& owners.contains_key(buffer.1)
            &&& buffer.0 == owners[buffer.1]
            &&& buffer.2 == docs[buffer.1].0
        } by {
            if k < earlier.len() {
                assert(earlier[k] == all[k]);
                assert(uris[shorter.index_of(earlier[k].1)] == all[k].1);
            } else {
                assert(uris[uris.len() - 1] == last);
            }
        }
        assert forall|j: int, k: int| 0 <= j < k < all.len() implies order::before(
            (#[trigger] all[j]).1,
            (#[trigger] all[k]).1,
        ) by {
            assert(earlier[j] == all[j]);
            if k < earlier.len() {
                assert(earlier[k] == all[k]);
            } else {
                let n = shorter.index_of(earlier[j].1);
                assert(uris[n] == all[j].1);
                assert(uris[uris.len() - 1] == all[k].1);
            }
        }
    }
}

/// The documents that services that just became ready are handed: those that are open and
/// that a target owns. They were opened before there were services to hear of it.
pub fn replay_open_buffers(documents: &DocumentStore, owners: &StrMap<String>) -> (
    buffers: Vec<OpenBuffer>)
    ensures
        exists|uris: Seq<Seq<char>>| #[trigger]
            order::strictly_sorted(uris) && uris.to_set() == documents@.dom() && buffer_views(
                buffers@,
            ) == owned_buffers(documents@, owner_views(owners@), uris),
{
    let keys = documents.open_uris();
    let ghost uris = text::texts(keys@);
    let mut buffers: Vec<OpenBuffer> = Vec::new();
    let mut i: usize = 0;
    assert(uris.take(0) =~= seq![]);
    assert(buffer_views(buffers@) =~= seq![]);
    while i < keys.len()
        invariant
            i <= keys@.len(),
            uris == text::texts(keys@),
            buffer_views(buffers@) == owned_buffers(
                documents@,
                owner_views(owners@),
                uris.take(i as int),
            ),
        decreases keys.len() - i,
    {
        let ghost before = buffer_views(buffers@);
        let uri = keys[i].as_str();
        assert(uris.take(i + 1).drop_last() =~= uris.take(i as int));
        assert(uris.take(i + 1).last() == uri@);
        match documents.text(uri) {
            Some(text) => match owners.get(uri) {
                Some(owner) => {
                    let ghost v = (owner@, uri@, text@);
                    buffers.push(
                        OpenBuffer { target_id: owner.clone(), uri: uri.to_owned(), text },
                    );
                    assert(buffer_views(buffers@) =~= before.push(v));
                },
                None => {},
            },
            None => {},
        }
        i += 1;
    }
    assert(uris.take(i as int) =~= uris);
    assert(order::strictly_sorted(uris));
    buffers
}

/// A way to start a build server.
#[derive(Debug, PartialEq, Eq)]
pub struct BspConnection {
    pub name: String,
    pub argv: Vec<String>,
}

/// What the connection files of a workspace tell: the usable ones, and what is wrong with
/// the others.
#[derive(Debug, PartialEq, Eq)]
pub struct BspDiscovery {
    pub candidates: Vec<BspConnection>,
    pub invalid: Vec<String>,
}

/// How a list of texts reads: each in quotes, between square brackets.
pub open spec fn shown_list(list: Seq<Seq<char>>) -> Seq<char> {
    "["@ + text::joined(quoted_all(list), ", "@) + "]"@
}

/// Each text in quotes.
pub open spec fn quoted_all(list: Seq<Seq<char>>) -> Seq<Seq<char>> {
    list.map_values(|s: Seq<char>| text::quoted(s))
}

fn list_text(list: &Vec<String>) -> (s: String)
    ensures
        s@ == shown_list(text::texts(list@)),
{
    let ghost all = quoted_all(text::texts(list@));
    let mut quoted: Vec<String> = Vec::new();
    let mut i: usize = 0;
    assert(text::texts(quoted@) =~= all.take(0));
    while i < list.len()
        invariant
            i <= list@.len(),
            all == quoted_all(text::texts(list@)),
            text::texts(quoted@) == all.take(i as int),
        decreases list.len() - i,
    {
        let ghost before = quoted@;
        quoted.push(text::quote(list[i].as_str()));
        i += 1;
        assert(text::texts(quoted@) =~= text::texts(before).push(all[i - 1]));
        assert(all.take(i as int) =~= all.take(i - 1).push(all[i - 1]));
    }
    assert(all.take(i as int) =~= all);
    let s = text::with("[".to_owned(), text::join(&quoted, ", ").as_str());
    text::with(s, "]")
}

/// The names of the usable connections.
pub open spec fn names_of(candidates: Seq<BspConnection>) -> Seq<Seq<char>> {
    candidates.map_values(|c: BspConnection| c.name@)
}

/// The line on the connection that is taken, or that there is none.
pub open spec fn discovery_text(root: Seq<char>, found: BspDiscovery) -> Seq<char> {
    if found.candidates@.len() == 0 {
        ".bsp discovery: no usable connection file under "@ + root + "/.bsp ("@
            + numerals::decimal(found.invalid@.len())
            + " invalid) \u{2014} install one (for mill: `mill mill.bsp.BSP/install`) and restart"@
    } else {
        ".bsp discovery: "@ + numerals::decimal(found.candidates@.len()) + " candidate(s) "@
            + shown_list(names_of(found.candidates@)) + ", "@ + numerals::decimal(
            found.invalid@.len(),
        ) + " invalid; picked '"@ + found.candidates@[0].name@ + "' argv="@ + shown_list(
            text::texts(found.candidates@[0].argv@),
        )
    }
}

fn names(candidates: &Vec<BspConnection>) -> (list: Vec<String>)
    ensures
        text::texts(list@) == names_of(candidates@),
{
    let ghost all = names_of(candidates@);
    let mut list: Vec<String> = Vec::new();
    let mut i: usize = 0;
    assert(text::texts(list@) =~= all.take(0));
    while i < candidates.len()
        invariant
            i <= candidates@.len(),
            all == names_of(candidates@),
            text::texts(list@) == all.take(i as int),
        decreases candidates.len() - i,
    {
        let ghost before = list@;
        list.push(candidates[i].name.clone());
        i += 1;
        assert(text::texts(list@) =~= text::texts(before).push(all[i - 1]));
        assert(all.take(i as int) =~= all.take(i - 1).push(all[i - 1]));
    }
    assert(all.take(i as int) =~= all);
    list
}

/// The connection that is taken: the first usable one. Without one there is no build
/// server, which is no error of the discovery. The line is for the log.
pub fn choose_connection<'a>(workspace_root: &str, found: &'a BspDiscovery) -> (chosen: (
    Option<&'a BspConnection>,
    LogRecord,
))
    ensures
        match chosen.0 {
            Some(connection) => found.candidates@.len() > 0 && *connection == found.candidates@[0],
            None => found.candidates@.len() == 0,
        },
        chosen.1.says(
            if found.candidates@.len() == 0 {
                Level::Warn
            } else {
                Level::Info
            },
            "boot"@,
            discovery_text(workspace_root@, *found),
        ),
{
    if found.candidates.len() == 0 {
        let s = text::with(
            ".bsp discovery: no usable connection file under ".to_owned(),
            workspace_root,
        );
        let s = text::with(s, "/.bsp (");
        let s = text::with(s, numerals::numeral(found.invalid.len() as u64).as_str());
        let s = text::with(
            s,
            " invalid) \u{2014} install one (for mill: `mill mill.bsp.BSP/install`) and restart",
        );
        return (
            None,
            LogRecord { level: Level::Warn, area: "boot".to_owned(), message: s },
        );
    }
    let connection = &found.candidates[0];
    let s = text::with(
        ".bsp discovery: ".to_owned(),
        numerals::numeral(found.candidates.len() as u64).as_str(),
    );
    let s = text::with(s, " candidate(s) ");
    let s = text::with(s, list_text(&names(&found.candidates)).as_str());
    let s = text::with(s, ", ");
    let s = text::with(s, numerals::numeral(found.invalid.len() as u64).as_str());
    let s = text::with(s, " invalid; picked '");
    let s = text::with(s, connection.name.as_str());
    let s = text::with(s, "' argv=");
    let s = text::with(s, list_text(&connection.argv).as_str());
    (Some(connection), LogRecord { level: Level::Info, area: "boot".to_owned(), message: s })
}

/// A model, and who the build server says it is.
#[derive(Debug, PartialEq, Eq)]
pub struct ReadyModel {
    pub model: BspProjectModel,
    pub server_name: Option<String>,
    pub server_version: Option<String>,
}

/// What came of asking for the model of a build.
#[derive(Debug, PartialEq, Eq)]
pub enum LoadOutcome {
    Model(ReadyModel),
    /// There is no build server.
    NoBsp,
}

/// `outcome` may be what came of a session: the server is initialized, then the model is
/// loaded. The first failure ends it.
pub open spec fn session_loads<
    I: Fn() -> Result<(String, String), String>,
    L: Fn() -> Result<BspProjectModel, String>,
>(initialize: I, load: L, outcome: Result<ReadyModel, String>) -> bool {
    ||| exists|detail: String| #[trigger] initialize.ensures((), Err(detail)) && outcome == Err::<
        ReadyModel,
        String,
    >(detail)
    ||| exists|identity: (String, String), detail: String|
        #![trigger initialize.ensures((), Ok(identity)), load.ensures((), Err(detail))]
        initialize.ensures((), Ok(identity)) && load.ensures((), Err(detail)) && outcome == Err::<
            ReadyModel,
            String,
        >(detail)
    ||| exists|identity: (String, String), model: BspProjectModel|
        #![trigger initialize.ensures((), Ok(identity)), load.ensures((), Ok(model))]
        initialize.ensures((), Ok(identity)) && load.ensures((), Ok(model)) && outcome == Ok::<
            ReadyModel,
            String,
        >(
            ReadyModel {
                model,
                server_name: Some(identity.0),
                server_version: Some(identity.1),
            },
        )
}

/// Loads the model over a session. Where it fails, the application ends the session, so
/// that no build server is left behind.
pub fn ready_model_from_session<
    I: Fn() -> Result<(String, String), String>,
    L: Fn() -> Result<BspProjectModel, String>,
>(initialize: &I, load: &L) -> (outcome: Result<ReadyModel, String>)
    requires
        initialize.requires(()),
        load.requires(()),
    ensures
        session_loads(*initialize, *load, outcome),
{
    let identity = match initialize() {
        Ok(identity) => identity,
        Err(detail) => {
            return Err(detail);
        },
    };
    assert(initialize.ensures((), Ok(identity)));
    match load() {
        Ok(model) => {
            assert(load.ensures((), Ok(model)));
            Ok(
                ReadyModel {
                    model,
                    server_name: Some(identity.0),
                    server_version: Some(identity.1),
                },
            )
        },
        Err(detail) => {
            assert(load.ensures((), Err(detail)));
            Err(detail)
        },
    }
}

/// What the services of a workspace are built from.
pub struct ServicesPlan {
    /// The targets that are indexed.
    pub targets: Vec<TargetSpec>,
    /// The places of their sources.
    pub sourceroots: Vec<String>,
    /// Who owns each URI.
    pub uri_to_target: StrMap<String>,
    /// The targets that the presentation compiler is told.
    pub pc_targets: Vec<TargetConfig>,
    /// The inventory of the report.
    pub doctor_targets: DoctorTargets,
    /// The directory of the index.
    pub store_dir: String,
}

/// The places of the sources of the indexed targets.
pub open spec fn sourceroots_of(specs: Seq<TargetSpecV>) -> Seq<Seq<char>> {
    specs.map_values(|s: TargetSpecV| s.sourceroot)
}

/// `plan` is what the services of a workspace with this model are built from.
pub open spec fn plans<N: Fn(&str) -> String>(
    plan: ServicesPlan,
    normal_uri: N,
    root: Seq<char>,
    model: BspProjectModel,
    server_name: Option<String>,
    server_version: Option<String>,
) -> bool {
    &&& spec_views(plan.targets@) == specs_of(model.targets@)
    &&& text::texts(plan.sourceroots@) == sourceroots_of(specs_of(model.targets@))
    &&& owns(normal_uri, model.uri_to_target@, owner_views(plan.uri_to_target@))
    &&& pc::target_views(plan.pc_targets@) == pc_configs_of(model.targets@)
    &&& is_inventory(plan.doctor_targets, model.targets@)
    &&& plan.doctor_targets.server_name == server_name
    &&& plan.doctor_targets.server_version == server_version
    &&& plan.store_dir@ == paths::joined_path(root, STORE_DIR@)
}

fn sourceroots(targets: &Vec<TargetSpec>) -> (list: Vec<String>)
    ensures
        text::texts(list@) == sourceroots_of(spec_views(targets@)),
{
    let ghost all = sourceroots_of(spec_views(targets@));
    let mut list: Vec<String> = Vec::new();
    let mut i: usize = 0;
    assert(text::texts(list@) =~= all.take(0));
    while i < targets.len()
        invariant
            i <= targets@.len(),
            all == sourceroots_of(spec_views(targets@)),
            text::texts(list@) == all.take(i as int),
        decreases targets.len() - i,
    {
        let ghost before = list@;
        list.push(targets[i].sourceroot.clone());
        i += 1;
        assert(all[i - 1] == targets@[i - 1].sourceroot@);
        assert(text::texts(list@) =~= text::texts(before).push(all[i - 1]));
        assert(all.take(i as int) =~= all.take(i - 1).push(all[i - 1]));
    }
    assert(all.take(i as int) =~= all);
    list
}

/// What the services of a workspace with this model are built from.
pub fn plan_services<N: Fn(&str) -> String>(
    workspace_root: &str,
    model: &BspProjectModel,
    server_name: Option<String>,
    server_version: Option<String>,
    normal_uri: &N,
) -> (plan: ServicesPlan)
    requires
        forall|uri: &str| normal_uri.requires((uri,)),
    ensures
        plans(plan, *normal_uri, workspace_root@, *model, server_name, server_version),
{
    let workspace = from_bsp(model, workspace_source_facts);
    let sourceroots = sourceroots(&workspace.targets);
    let mut doctor_targets = doctor_targets_of(model);
    doctor_targets.server_name = server_name;
    doctor_targets.server_version = server_version;
    ServicesPlan {
        targets: workspace.targets,
        sourceroots,
        uri_to_target: uri_owners(model, normal_uri),
        pc_targets: pc_target_configs(model),
        doctor_targets,
        store_dir: paths::join_path(workspace_root, STORE_DIR),
    }
}

/// What is said where there is no build server: an index without the dependencies of the
/// targets would answer references wrongly, so none is served.
pub open spec fn no_build_server() -> Seq<char> {
    "no build server connection found (the no-BSP warm-restart mode is deferred)"@
}

/// A load may answer `outcome` for a root.
pub open spec fn loads<L: Fn(&str) -> Result<LoadOutcome, String>>(
    load: L,
    root: Seq<char>,
    outcome: Result<LoadOutcome, String>,
) -> bool {
    exists|key: &str| #[trigger] load.ensures((key,), outcome) && key@ == root
}

/// Opening the index at a place may end with `opened`.
pub open spec fn opens<O: Fn(&str) -> Result<(), String>>(
    open_store: O,
    place: Seq<char>,
    opened: Result<(), String>,
) -> bool {
    exists|key: &str| #[trigger] open_store.ensures((key,), opened) && key@ == place
}

/// Indexing the targets of a plan may end with `ingested`.
pub open spec fn ingests<I: Fn(&Vec<TargetSpec>) -> Result<(), String>>(
    ingest: I,
    plan: ServicesPlan,
    ingested: Result<(), String>,
) -> bool {
    ingest.ensures((&plan.targets,), ingested)
}

/// The index at a place may open.
pub open spec fn can_open<O: Fn(&str) -> Result<(), String>>(
    open_store: O,
    place: Seq<char>,
) -> bool {
    exists|opened: Result<(), String>| #[trigger] opens(open_store, place, opened) && opened is Ok
}

/// The targets of a plan may be indexed.
pub open spec fn can_ingest<I: Fn(&Vec<TargetSpec>) -> Result<(), String>>(
    ingest: I,
    plan: ServicesPlan,
) -> bool {
    exists|ingested: Result<(), String>| #[trigger]
        ingests(ingest, plan, ingested) && ingested is Ok
}

/// `outcome` may come of building the services of a workspace from a loaded model: the
/// index is opened, then the targets are indexed. The first failure ends it.
pub open spec fn builds_from<
    O: Fn(&str) -> Result<(), String>,
    I: Fn(&Vec<TargetSpec>) -> Result<(), String>,
    N: Fn(&str) -> String,
>(
    open_store: O,
    ingest: I,
    normal_uri: N,
    root: Seq<char>,
    ready: ReadyModel,
    outcome: Result<ServicesPlan, String>,
) -> bool {
    let place = paths::joined_path(root, STORE_DIR@);
    ||| exists|detail: String| #[trigger] opens(open_store, place, Err(detail)) && outcome == Err::<
        ServicesPlan,
        String,
    >(detail)
    ||| can_open(open_store, place) && exists|plan: ServicesPlan, detail: String| #[trigger]
        ingests(ingest, plan, Err(detail)) && plans(
            plan,
            normal_uri,
            root,
            ready.model,
            ready.server_name,
            ready.server_version,
        ) && outcome == Err::<ServicesPlan, String>(detail)
    ||| can_open(open_store, place) && exists|plan: ServicesPlan| #[trigger]
        can_ingest(ingest, plan) && plans(
            plan,
            normal_uri,
            root,
            ready.model,
            ready.server_name,
            ready.server_version,
        ) && outcome == Ok::<ServicesPlan, String>(plan)
}

/// `outcome` may come of building the services of a workspace. Without a build server it
/// fails.
pub open spec fn builds<
    L: Fn(&str) -> Result<LoadOutcome, String>,
    O: Fn(&str) -> Result<(), String>,
    I: Fn(&Vec<TargetSpec>) -> Result<(), String>,
    N: Fn(&str) -> String,
>(
    load: L,
    open_store: O,
    ingest: I,
    normal_uri: N,
    root: Seq<char>,
    outcome: Result<ServicesPlan, String>,
) -> bool {
    ||| exists|detail: String| #[trigger] loads(load, root, Err(detail)) && outcome == Err::<
        ServicesPlan,
        String,
    >(detail)
    ||| loads(load, root, Ok(LoadOutcome::NoBsp)) && outcome is Err && outcome->Err_0@
        == no_build_server()
    ||| exists|ready: ReadyModel| #[trigger]
        loads(load, root, Ok(LoadOutcome::Model(ready))) && builds_from(
            open_store,
            ingest,
            normal_uri,
            root,
            ready,
            outcome,
        )
}

/// A load may answer a model for a root.
pub open spec fn may_load<L: Fn(&str) -> Result<LoadOutcome, String>>(
    load: L,
    root: Seq<char>,
) -> bool {
    exists|ready: ReadyModel| #[trigger] loads(load, root, Ok(LoadOutcome::Model(ready)))
}

/// The index of a workspace can be opened where its model may be loaded. Without a model
/// it is left alone.
pub open spec fn opens_behind_load<
    L: Fn(&str) -> Result<LoadOutcome, String>,
    O: Fn(&str) -> Result<(), String>,
>(load: L, open_store: O, root: Seq<char>) -> bool {
    forall|place: &str|
        may_load(load, root) && place@ == paths::joined_path(root, STORE_DIR@) ==> #[trigger]
        open_store.requires((place,))
}

/// Targets can be indexed where the model may be loaded and the index may open. Without
/// either nothing is indexed.
pub open spec fn ingests_behind_open<
    L: Fn(&str) -> Result<LoadOutcome, String>,
    O: Fn(&str) -> Result<(), String>,
    I: Fn(&Vec<TargetSpec>) -> Result<(), String>,
>(load: L, open_store: O, ingest: I, root: Seq<char>) -> bool {
    forall|targets: &Vec<TargetSpec>|
        may_load(load, root) && can_open(open_store, paths::joined_path(root, STORE_DIR@))
            ==> #[trigger] ingest.requires((targets,))
}

fn build_from<
    O: Fn(&str) -> Result<(), String>,
    I: Fn(&Vec<TargetSpec>) -> Result<(), String>,
    N: Fn(&str) -> String,
>(workspace_root: &str, ready: ReadyModel, open_store: &O, ingest: &I, normal_uri: &N) -> (outcome: Result<
    ServicesPlan,
    String,
>)
    requires
        forall|uri: &str| normal_uri.requires((uri,)),
        forall|place: &str|
            place@ == paths::joined_path(workspace_root@, STORE_DIR@) ==> #[trigger]
            open_store.requires((place,)),
        forall|targets: &Vec<TargetSpec>|
            can_open(*open_store, paths::joined_path(workspace_root@, STORE_DIR@)) ==> #[trigger]
            ingest.requires((targets,)),
    ensures
        builds_from(*open_store, *ingest, *normal_uri, workspace_root@, ready, outcome),
{
    let plan = plan_services(
        workspace_root,
        &ready.model,
        ready.server_name,
        ready.server_version,
        normal_uri,
    );
    let opened = open_store(plan.store_dir.as_str());
    assert(opens(*open_store, plan.store_dir@, opened));
    match opened {
        Ok(_) => {},
        Err(detail) => {
            assert(opens(*open_store, plan.store_dir@, Err(detail)));
            return Err(detail);
        },
    }
    assert(can_open(*open_store, plan.store_dir@));
    let ingested = ingest(&plan.targets);
    assert(ingests(*ingest, plan, ingested));
    match ingested {
        Ok(_) => {
            assert(can_ingest(*ingest, plan));
            Ok(plan)
        },
        Err(detail) => {
            assert(ingests(*ingest, plan, Err(detail)));
            Err(detail)
        },
    }
}

/// Builds the services of a workspace: loads the model, opens the index and indexes the
/// targets, and hands out what the services are built from. Each step is taken only where
/// the one before it succeeded.
pub fn build_services<
    L: Fn(&str) -> Result<LoadOutcome, String>,
    O: Fn(&str) -> Result<(), String>,
    I: Fn(&Vec<TargetSpec>) -> Result<(), String>,
    N: Fn(&str) -> String,
>(workspace_root: &str, load: &L, open_store: &O, ingest: &I, normal_uri: &N) -> (outcome: Result<
    ServicesPlan,
    String,
>)
    requires
        forall|uri: &str| normal_uri.requires((uri,)),
        load.requires((workspace_root,)),
        opens_behind_load(*load, *open_store, workspace_root@),
        ingests_behind_open(*load, *open_store, *ingest, workspace_root@),
    ensures
        builds(*load, *open_store, *ingest, *normal_uri, workspace_root@, outcome),
{
    let loaded = load(workspace_root);
    assert(loads(*load, workspace_root@, loaded));
    match loaded {
        Ok(LoadOutcome::Model(ready)) => {
            let ghost given = ready;
            assert(loads(*load, workspace_root@, Ok(LoadOutcome::Model(given))));
            assert(may_load(*load, workspace_root@));
            build_from(workspace_root, ready, open_store, ingest, normal_uri)
        },
        Ok(LoadOutcome::NoBsp) => Err(
            "no build server connection found (the no-BSP warm-restart mode is deferred)".to_owned(),
        ),
        Err(detail) => {
            assert(loads(*load, workspace_root@, Err(detail)));
            Err(detail)
        },
    }
}

/// `state` may come of the bootstrap: it needs a root, and its failures are those of
/// building the services.
pub open spec fn bootstraps<
    L: Fn(&str) -> Result<LoadOutcome, String>,
    O: Fn(&str) -> Result<(), String>,
    I: Fn(&Vec<TargetSpec>) -> Result<(), String>,
    N: Fn(&str) -> String,
>(
    load: L,
    open_store: O,
    ingest: I,
    normal_uri: N,
    root: Option<Seq<char>>,
    state: WorkspaceState<ServicesPlan>,
) -> bool {
    match root {
        None => match state {
            WorkspaceState::Failed { detail } => detail@
                == "no workspace root in the initialize params"@,
            _ => false,
        },
        Some(root) => match state {
            WorkspaceState::Ready(plan) => builds(load, open_store, ingest, normal_uri, root, Ok(plan)),
            WorkspaceState::Failed { detail } => builds(
                load,
                open_store,
                ingest,
                normal_uri,
                root,
                Err(detail),
            ),
            WorkspaceState::NotReady { .. } => false,
        },
    }
}

/// The bootstrap of a workspace. Without a root nothing is loaded.
pub fn build<
    L: Fn(&str) -> Result<LoadOutcome, String>,
    O: Fn(&str) -> Result<(), String>,
    I: Fn(&Vec<TargetSpec>) -> Result<(), String>,
    N: Fn(&str) -> String,
>(workspace_root: Option<&str>, load: &L, open_store: &O, ingest: &I, normal_uri: &N) -> (state: WorkspaceState<
    ServicesPlan,
>)
    requires
        forall|uri: &str| normal_uri.requires((uri,)),
        workspace_root matches Some(root) ==> {
            &&& load.requires((root,))
            &&& opens_behind_load(*load, *open_store, root@)
            &&& ingests_behind_open(*load, *open_store, *ingest, root@)
        },
    ensures
        bootstraps(
            *load,
            *open_store,
            *ingest,
            *normal_uri,
            crate::logging::optional_text(workspace_root),
            state,
        ),
{
    match workspace_root {
        None => WorkspaceState::Failed {
            detail: "no workspace root in the initialize params".to_owned(),
        },
        Some(root) => match build_services(root, load, open_store, ingest, normal_uri) {
            Ok(plan) => WorkspaceState::Ready(plan),
            Err(detail) => WorkspaceState::Failed { detail },
        },
    }
}

/// What comes of a change of the build targets.
pub enum ReloadOutcome {
    /// The services stay as they are. The line says why.
    Keep { warning: LogRecord },
    /// The services are built anew from this plan, over the same session, index and
    /// presentation compiler.
    Adopt { plan: ServicesPlan },
}

/// `outcome` may come of a change of the build targets, with the refetched model.
pub open spec fn reloads_from<
    I: Fn(&Vec<TargetSpec>) -> Result<(), String>,
    N: Fn(&str) -> String,
>(
    ingest: I,
    normal_uri: N,
    root: Seq<char>,
    model: BspProjectModel,
    server_name: Option<String>,
    server_version: Option<String>,
    outcome: ReloadOutcome,
) -> bool {
    match outcome {
        ReloadOutcome::Keep { warning } => exists|plan: ServicesPlan, error: String| #[trigger]
            ingests(ingest, plan, Err(error)) && plans(
                plan,
                normal_uri,
                root,
                model,
                server_name,
                server_version,
            ) && specs_of(model.targets@).len() > 0 && warning.says(
                Level::Warn,
                "bsp"@,
                "build target model reingest failed: "@ + error@
                    + " \u{2014} keeping the previous ready snapshot"@,
            ),
        ReloadOutcome::Adopt { plan } => plans(plan, normal_uri, root, model, server_name, server_version) && (
        specs_of(model.targets@).len() > 0 ==> can_ingest(ingest, plan)),
    }
}

/// `outcome` may come of a change of the build targets. The model is fetched again over
/// the same session, so the build server is who it was. A failure leaves the services as
/// they are. A model without indexed targets replaces no index.
pub open spec fn reloads<
    R: Fn() -> Result<BspProjectModel, String>,
    I: Fn(&Vec<TargetSpec>) -> Result<(), String>,
    N: Fn(&str) -> String,
>(
    refetch: R,
    ingest: I,
    normal_uri: N,
    root: Seq<char>,
    server_name: Option<String>,
    server_version: Option<String>,
    outcome: ReloadOutcome,
) -> bool {
    ||| exists|detail: String| #[trigger]
        refetch.ensures((), Err(detail)) && outcome is Keep && outcome->warning.says(
            Level::Warn,
            "bsp"@,
            "build target model reload failed: "@ + detail@
                + " \u{2014} keeping the previous ready snapshot"@,
        )
    ||| exists|model: BspProjectModel| #[trigger]
        refetch.ensures((), Ok(model)) && reloads_from(
            ingest,
            normal_uri,
            root,
            model,
            server_name,
            server_version,
            outcome,
        )
}

fn keep(what: &str, detail: &str) -> (outcome: ReloadOutcome)
    ensures
        outcome is Keep,
        outcome->warning.says(
            Level::Warn,
            "bsp"@,
            what@ + detail@ + " \u{2014} keeping the previous ready snapshot"@,
        ),
{
    let s = text::with(what.to_owned(), detail);
    let s = text::with(s, " \u{2014} keeping the previous ready snapshot");
    ReloadOutcome::Keep {
        warning: LogRecord { level: Level::Warn, area: "bsp".to_owned(), message: s },
    }
}

/// Takes a change of the build targets. No targets are not indexed: that would drop the
/// index.
pub fn reload_build_model<
    R: Fn() -> Result<BspProjectModel, String>,
    I: Fn(&Vec<TargetSpec>) -> Result<(), String>,
    N: Fn(&str) -> String,
>(
    workspace_root: &str,
    server_name: Option<String>,
    server_version: Option<String>,
    refetch: &R,
    ingest: &I,
    normal_uri: &N,
) -> (outcome: ReloadOutcome)
    requires
        forall|uri: &str| normal_uri.requires((uri,)),
        refetch.requires(()),
        forall|targets: &Vec<TargetSpec>|
            targets@.len() > 0 ==> #[trigger] ingest.requires((targets,)),
    ensures
        reloads(
            *refetch,
            *ingest,
            *normal_uri,
            workspace_root@,
            server_name,
            server_version,
            outcome,
        ),
{
    let model = match refetch() {
        Ok(model) => model,
        Err(detail) => {
            assert(refetch.ensures((), Err(detail)));
            return keep("build target model reload failed: ", detail.as_str());
        },
    };
    assert(refetch.ensures((), Ok(model)));
    let plan = plan_services(workspace_root, &model, server_name, server_version, normal_uri);
    assert(plan.targets@.len() == spec_views(plan.targets@).len());
    if plan.targets.len() > 0 {
        let ingested = ingest(&plan.targets);
        assert(ingests(*ingest, plan, ingested));
        match ingested {
            Ok(_) => {
                assert(can_ingest(*ingest, plan));
            },
            Err(error) => {
                assert(ingests(*ingest, plan, Err(error)));
                return keep("build target model reingest failed: ", error.as_str());
            },
        }
    }
    ReloadOutcome::Adopt { plan }
}

/// The record of a bootstrap that starts.
pub fn bootstrap_started(workspace_root: &str) -> (record: LogRecord)
    ensures
        record.says(Level::Info, "boot"@, "bootstrap started for workspace "@ + workspace_root@),
{
    LogRecord {
        level: Level::Info,
        area: "boot".to_owned(),
        message: text::with("bootstrap started for workspace ".to_owned(), workspace_root),
    }
}

/// The level and the text of the record of a bootstrap that ended in `state`. `elapsed` is
/// the time it took, in seconds.
pub open spec fn ended_text<S>(
    root: Option<Seq<char>>,
    state: WorkspaceState<S>,
    elapsed: Seq<char>,
) -> Option<(Level, Seq<char>)> {
    match (root, state) {
        (None, _) => Some(
            (
                Level::Error,
                "bootstrap failed: no workspace root in the initialize params \u{2014} run scala3SemanticLs.doctor"@,
            ),
        ),
        (_, WorkspaceState::Ready(_)) => Some((Level::Info, "READY in "@ + elapsed + "s total"@)),
        (_, WorkspaceState::Failed { detail }) => Some(
            (
                Level::Error,
                "bootstrap failed after "@ + elapsed + "s: "@ + detail@
                    + " \u{2014} run scala3SemanticLs.doctor"@,
            ),
        ),
        (_, WorkspaceState::NotReady { .. }) => None,
    }
}

/// The record of a bootstrap that ended in `state`. `elapsed` is the time it took, in
/// seconds. A workspace that is not ready yet has none.
pub fn bootstrap_ended<S>(
    workspace_root: Option<&str>,
    state: &WorkspaceState<S>,
    elapsed: &str,
) -> (record: Option<LogRecord>)
    ensures
        ({
            let told = ended_text(crate::logging::optional_text(workspace_root), *state, elapsed@);
            match (record, told) {
                (Some(record), Some((level, message))) => record.says(level, "boot"@, message),
                (None, None) => true,
                _ => false,
            }
        }),
{
    if workspace_root.is_none() {
        return Some(
            LogRecord {
                level: Level::Error,
                area: "boot".to_owned(),
                message: "bootstrap failed: no workspace root in the initialize params \u{2014} run scala3SemanticLs.doctor".to_owned(),
            },
        );
    }
    match state {
        WorkspaceState::Ready(_) => {
            let s = text::with("READY in ".to_owned(), elapsed);
            Some(
                LogRecord {
                    level: Level::Info,
                    area: "boot".to_owned(),
                    message: text::with(s, "s total"),
                },
            )
        },
        WorkspaceState::Failed { detail } => {
            let s = text::with("bootstrap failed after ".to_owned(), elapsed);
            let s = text::with(text::with(s, "s: "), detail.as_str());
            Some(
                LogRecord {
                    level: Level::Error,
                    area: "boot".to_owned(),
                    message: text::with(s, " \u{2014} run scala3SemanticLs.doctor"),
                },
            )
        },
        WorkspaceState::NotReady { .. } => None,
    }
}

/// The index that a store recovered.
#[derive(Clone, Copy, Debug, PartialEq, Eq)]
pub struct RecoveredIndex {
    pub generation: u64,
    pub segment: u64,
}

/// The record of an opened index: what it recovered, or that it is new.
pub fn store_opened(store_dir: &str, recovered: Option<RecoveredIndex>) -> (record: LogRecord)
    ensures
        record.says(
            Level::Info,
            "boot"@,
            "store opened at "@ + store_dir@ + (match recovered {
                Some(index) => ": recovered generation "@ + numerals::decimal(
                    index.generation as nat,
                ) + " (segment "@ + numerals::decimal(index.segment as nat) + ")"@,
                None => ": fresh (no prior index)"@,
            }),
        ),
{
    let state = match recovered {
        Some(index) => {
            let s = text::with(
                ": recovered generation ".to_owned(),
                numerals::numeral(index.generation).as_str(),
            );
            let s = text::with(s, " (segment ");
            text::with(text::with(s, numerals::numeral(index.segment).as_str()), ")")
        },
        None => ": fresh (no prior index)".to_owned(),
    };
    let s = text::with("store opened at ".to_owned(), store_dir);
    LogRecord {
        level: Level::Info,
        area: "boot".to_owned(),
        message: text::with(s, state.as_str()),
    }
}

/// The record of the first indexing of the targets.
pub fn ingest_completed(summary: &str) -> (record: LogRecord)
    ensures
        record.says(Level::Info, "boot"@, "initial ingest complete \u{2014} "@ + summary@),
{
    LogRecord {
        level: Level::Info,
        area: "boot".to_owned(),
        message: text::with("initial ingest complete \u{2014} ".to_owned(), summary),
    }
}

/// The record of a change of the build targets that the build server told.
pub fn target_change_received() -> (record: LogRecord)
    ensures
        record.says(
            Level::Info,
            "bsp"@,
            "buildTarget/didChange received \u{2014} scheduling a build model reload"@,
        ),
{
    LogRecord {
        level: Level::Info,
        area: "bsp".to_owned(),
        message: "buildTarget/didChange received \u{2014} scheduling a build model reload".to_owned(),
    }
}

/// The record of a reload that starts.
pub fn reload_started() -> (record: LogRecord)
    ensures
        record.says(
            Level::Info,
            "bsp"@,
            "build model reload started (buildTarget/didChange): refetching over the retained session"@,
        ),
{
    LogRecord {
        level: Level::Info,
        area: "bsp".to_owned(),
        message: "build model reload started (buildTarget/didChange): refetching over the retained session".to_owned(),
    }
}

/// The record of a reload that is adopted, with the number of indexed targets before and
/// after it.
pub fn reload_completed(before: &ServicesPlan, after: &ServicesPlan) -> (record: LogRecord)
    ensures
        record.says(
            Level::Info,
            "bsp"@,
            "build model reload complete: "@ + numerals::decimal(before.targets@.len()) + " -> "@
                + numerals::decimal(after.targets@.len()) + " indexable target(s)"@,
        ),
{
    let s = text::with(
        "build model reload complete: ".to_owned(),
        numerals::numeral(before.targets.len() as u64).as_str(),
    );
    let s = text::with(s, " -> ");
    let s = text::with(s, numerals::numeral(after.targets.len() as u64).as_str());
    LogRecord {
        level: Level::Info,
        area: "bsp".to_owned(),
        message: text::with(s, " indexable target(s)"),
    }
}

/// The records of the connection files that cannot be used, one for each.
pub fn invalid_connections(found: &BspDiscovery) -> (records: Vec<LogRecord>)
    ensures
        records@.len() == found.invalid@.len(),
        forall|i: int|
            0 <= i < records@.len() ==> (#[trigger] records@[i]).says(
                Level::Warn,
                "boot"@,
                ".bsp discovery: invalid connection file: "@ + found.invalid@[i]@,
            ),
{
    let mut records: Vec<LogRecord> = Vec::new();
    let mut i: usize = 0;
    while i < found.invalid.len()
        invariant
            i <= found.invalid@.len(),
            records@.len() == i,
            forall|j: int|
                0 <= j < i ==> (#[trigger] records@[j]).says(
                    Level::Warn,
                    "boot"@,
                    ".bsp discovery: invalid connection file: "@ + found.invalid@[j]@,
                ),
        decreases found.invalid.len() - i,
    {
        records.push(
            LogRecord {
                level: Level::Warn,
                area: "boot".to_owned(),
                message: text::with(
                    ".bsp discovery: invalid connection file: ".to_owned(),
                    found.invalid[i].as_str(),
                ),
            },
        );
        i += 1;
    }
    records
}

/// The line on a model counts its targets, those with SemanticDB and those without, and names
/// each one that lacks it.
pub proof fn law_summary_told(targets: Seq<BspTarget>)
    ensures
        text::has_prefix(
            summary_of(targets),
            "build model loaded: "@ + numerals::decimal(targets.len()) + " Scala 3 target(s), "@
                + numerals::decimal(having(targets, true)) + " indexable, "@ + numerals::decimal(
                having(targets, false),
            ) + " without SemanticDB"@,
        ),
        having(targets, true) + having(targets, false) == targets.len(),
        forall|i: int|
            0 <= i < targets.len() && (#[trigger] targets[i]).semanticdb_root is None
                ==> text::occurs(targets[i].bsp_id@, summary_of(targets)),
{
    law_ids_listed(targets, true);
    law_ids_listed(targets, false);
    lemma_ids_bounded(targets);
    let lacking = ids_of(targets, false);
    let counted = "build model loaded: "@ + numerals::decimal(targets.len())
        + " Scala 3 target(s), "@ + numerals::decimal(having(targets, true)) + " indexable, "@
        + numerals::decimal(having(targets, false)) + " without SemanticDB"@;
    assert(summary_of(targets).take(counted.len() as int) =~= counted);
    assert forall|i: int|
        0 <= i < targets.len() && (#[trigger] targets[i]).semanticdb_root is None implies text::occurs(
        targets[i].bsp_id@,
        summary_of(targets),
    ) by {
        let k = having(targets.take(i), false) as int;
        assert(lacking[k] == targets[i].bsp_id@);
        text::law_joined_holds_each(lacking, ", "@);
        let named = text::joined(lacking, ", "@);
        assert(text::occurs(lacking[k], named));
        text::lemma_occurs(lacking[k], counted + " (no -Xsemanticdb: "@, named, ")"@);
        assert(summary_of(targets) =~= counted + " (no -Xsemanticdb: "@ + named + ")"@);
    }
}

/// The line on the connection files names each usable one, and of the first one, which is taken,
/// each argument; where there is none, it names the workspace.
pub proof fn law_discovery_told(root: Seq<char>, found: BspDiscovery)
    ensures
        found.candidates@.len() == 0 ==> text::occurs(root + "/.bsp"@, discovery_text(root, found)),
        forall|i: int|
            0 <= i < found.candidates@.len() ==> text::occurs(
                text::quoted((#[trigger] found.candidates@[i]).name@),
                discovery_text(root, found),
            ),
        forall|i: int|
            found.candidates@.len() > 0 && 0 <= i < found.candidates@[0].argv@.len()
                ==> text::occurs(
                text::quoted((#[trigger] found.candidates@[0].argv@[i])@),
                discovery_text(root, found),
            ),
        found.candidates@.len() > 0 ==> text::occurs(
            "picked '"@ + found.candidates@[0].name@ + "'"@,
            discovery_text(root, found),
        ),
{
    let told = discovery_text(root, found);
    let invalid = numerals::decimal(found.invalid@.len());
    if found.candidates@.len() == 0 {
        let a = ".bsp discovery: no usable connection file under "@;
        let b = " invalid) \u{2014} install one (for mill: `mill mill.bsp.BSP/install`) and restart"@;
        reveal_strlit("/.bsp (");
        reveal_strlit("/.bsp");
        reveal_strlit(" (");
        assert("/.bsp ("@ =~= "/.bsp"@ + " ("@);
        text::lemma_occurs_within(a, root + "/.bsp"@, " ("@ + invalid + b);
        assert(told =~= a + (root + "/.bsp"@) + (" ("@ + invalid + b));
    } else {
        let first = found.candidates@[0];
        let names = names_of(found.candidates@);
        let args = text::texts(first.argv@);
        let a = ".bsp discovery: "@ + numerals::decimal(found.candidates@.len())
            + " candidate(s) "@;
        let b = ", "@ + invalid + " invalid; picked '"@ + first.name@ + "' argv="@;
        assert(told =~= a + shown_list(names) + (b + shown_list(args)));
        assert(told =~= (a + shown_list(names) + b) + shown_list(args) + seq![]);
        assert forall|i: int| 0 <= i < found.candidates@.len() implies text::occurs(
            text::quoted((#[trigger] found.candidates@[i]).name@),
            told,
        ) by {
            lemma_shown_list(names, i);
            assert(names[i] == found.candidates@[i].name@);
            text::lemma_occurs(text::quoted(names[i]), a, shown_list(names), b + shown_list(args));
        }
        assert forall|i: int| 0 <= i < first.argv@.len() implies text::occurs(
            text::quoted((#[trigger] found.candidates@[0].argv@[i])@),
            told,
        ) by {
            lemma_shown_list(args, i);
            text::lemma_occurs(
                text::quoted(args[i]),
                a + shown_list(names) + b,
                shown_list(args),
                seq![],
            );
        }
        reveal_strlit(" invalid; picked '");
        reveal_strlit("' argv=");
        reveal_strlit(" invalid; ");
        reveal_strlit("picked '");
        reveal_strlit("'");
        reveal_strlit(" argv=");
        assert(" invalid; picked '"@ =~= " invalid; "@ + "picked '"@);
        assert("' argv="@ =~= "'"@ + " argv="@);
        let picked = "picked '"@ + first.name@ + "'"@;
        let front = a + shown_list(names) + ", "@ + invalid + " invalid; "@;
        text::lemma_occurs_within(front, picked, " argv="@ + shown_list(args));
        assert(told =~= front + picked + (" argv="@ + shown_list(args)));
    }
}

proof fn lemma_shown_list(list: Seq<Seq<char>>, i: int)
    requires
        0 <= i < list.len(),
    ensures
        text::occurs(text::quoted(list[i]), shown_list(list)),
{
    let all = quoted_all(list);
    text::law_joined_holds_each(all, ", "@);
    assert(all[i] == text::quoted(list[i]));
    assert(text::occurs(all[i], text::joined(all, ", "@)));
    text::lemma_occurs(all[i], "["@, text::joined(all, ", "@), "]"@);
}

/// A bootstrap that failed is an error in the log, with what went wrong and the command that
/// tells more; one that succeeded is none, and tells how long it took.
pub proof fn law_end_told<S>(root: Seq<char>, state: WorkspaceState<S>, elapsed: Seq<char>)
    ensures
        ended_text(None, state, elapsed) matches Some((level, message)) && level is Error
            && text::occurs("scala3SemanticLs.doctor"@, message),
        state is Failed ==> (ended_text(Some(root), state, elapsed) matches Some((level, message))
            && level is Error && text::occurs(state->Failed_detail@, message) && text::occurs(
            elapsed,
            message,
        ) && text::occurs("scala3SemanticLs.doctor"@, message)),
        state is Ready ==> (ended_text(Some(root), state, elapsed) matches Some((level, message))
            && level is Info && text::occurs(elapsed, message)),
        state is NotReady ==> ended_text(Some(root), state, elapsed) is None,
{
    let doctor = "scala3SemanticLs.doctor"@;
    let none = "bootstrap failed: no workspace root in the initialize params \u{2014} run scala3SemanticLs.doctor"@;
    let run = " \u{2014} run scala3SemanticLs.doctor"@;
    reveal_strlit("scala3SemanticLs.doctor");
    reveal_strlit(
        "bootstrap failed: no workspace root in the initialize params \u{2014} run scala3SemanticLs.doctor",
    );
    reveal_strlit(" \u{2014} run scala3SemanticLs.doctor");
    assert(none.subrange(none.len() - doctor.len(), none.len() - doctor.len() + doctor.len())
        =~= doctor);
    assert(run.subrange(run.len() - doctor.len(), run.len() - doctor.len() + doctor.len())
        =~= doctor);
    assert(text::occurs(doctor, run));
    match state {
        WorkspaceState::Failed { detail } => {
            let a = "bootstrap failed after "@;
            let message = a + elapsed + "s: "@ + detail@ + run;
            text::lemma_occurs_within(a, elapsed, "s: "@ + detail@ + run);
            assert(message =~= a + elapsed + ("s: "@ + detail@ + run));
            text::lemma_occurs_within(a + elapsed + "s: "@, detail@, run);
            text::lemma_occurs(doctor, a + elapsed + "s: "@ + detail@, run, seq![]);
            assert(message =~= a + elapsed + "s: "@ + detail@ + run + seq![]);
        },
        WorkspaceState::Ready(_) => {
            text::lemma_occurs_within("READY in "@, elapsed, "s total"@);
        },
        _ => {},
    }
}

/// A status of the build server is told by its name, or by its number where it has no name here,
/// and two statuses never read the same.
pub proof fn law_status_told(one: i32, other: i32)
    ensures
        status_name(2) == "ERROR"@,
        status_name(3) == "CANCELLED"@,
        one != 2 && one != 3 ==> numerals::signed_value(status_name(one)) == Some(one as int),
        status_name(one) == status_name(other) ==> one == other,
{
    numerals::law_numeral_round_trip(one as i64);
    numerals::law_numeral_round_trip(other as i64);
    reveal_strlit("ERROR");
    reveal_strlit("CANCELLED");
    assert("ERROR"@[0] == 'E' && "CANCELLED"@[0] == 'C');
    assert("ERROR"@.len() == 5 && "CANCELLED"@.len() == 9);
}

/// Services are there only behind a model that was loaded for the workspace, an index that was
/// opened in it, and targets that were indexed; the plan is made from that model and keeps who
/// the build server is. Without a build server there are none.
pub proof fn law_services_behind_model<
    L: Fn(&str) -> Result<LoadOutcome, String>,
    O: Fn(&str) -> Result<(), String>,
    I: Fn(&Vec<TargetSpec>) -> Result<(), String>,
    N: Fn(&str) -> String,
>(load: L, open_store: O, ingest: I, normal_uri: N, root: Seq<char>, plan: ServicesPlan)
    requires
        builds(load, open_store, ingest, normal_uri, root, Ok(plan)),
    ensures
        exists|ready: ReadyModel|
            #![trigger loads(load, root, Ok(LoadOutcome::Model(ready)))]
            {
                &&& loads(load, root, Ok(LoadOutcome::Model(ready)))
                &&& spec_views(plan.targets@) == specs_of(ready.model.targets@)
                &&& pc::target_views(plan.pc_targets@) == pc_configs_of(ready.model.targets@)
                &&& is_inventory(plan.doctor_targets, ready.model.targets@)
                &&& plan.doctor_targets.server_name == ready.server_name
                &&& plan.doctor_targets.server_version == ready.server_version
            },
        exists|opened: Result<(), String>| #[trigger]
            opens(open_store, paths::joined_path(root, ".scala3-bsp-semantic-ls"@), opened)
                && opened is Ok,
        exists|ingested: Result<(), String>| #[trigger]
            ingest.ensures((&plan.targets,), ingested) && ingested is Ok,
        plan.store_dir@ == paths::joined_path(root, ".scala3-bsp-semantic-ls"@),
        plan.sourceroots@.len() == plan.targets@.len(),
        forall|i: int|
            0 <= i < plan.targets@.len() ==> (#[trigger] plan.sourceroots@[i])@
                == plan.targets@[i].sourceroot@,
{
    let ready = choose|ready: ReadyModel| #[trigger]
        loads(load, root, Ok(LoadOutcome::Model(ready))) && builds_from(
            open_store,
            ingest,
            normal_uri,
            root,
            ready,
            Ok(plan),
        );
    assert(loads(load, root, Ok(LoadOutcome::Model(ready))));
    let ingested = choose|ingested: Result<(), String>| #[trigger]
        ingests(ingest, plan, ingested) && ingested is Ok;
    assert(ingest.ensures((&plan.targets,), ingested));
    let place = paths::joined_path(root, STORE_DIR@);
    let opened = choose|opened: Result<(), String>| #[trigger]
        opens(open_store, place, opened) && opened is Ok;
    assert(opens(open_store, place, opened));
    let roots = text::texts(plan.sourceroots@);
    let specs = spec_views(plan.targets@);
    assert(roots.len() == plan.sourceroots@.len());
    assert(specs.len() == plan.targets@.len());
    assert forall|i: int| 0 <= i < plan.targets@.len() implies (
    #[trigger] plan.sourceroots@[i])@ == plan.targets@[i].sourceroot@ by {
        assert(roots[i] == plan.sourceroots@[i]@);
        assert(specs[i].sourceroot == plan.targets@[i].sourceroot@);
    }
}

/// A bootstrap ends: the workspace is ready or has failed. Without a root it has failed.
pub proof fn law_bootstrap_ends<
    L: Fn(&str) -> Result<LoadOutcome, String>,
    O: Fn(&str) -> Result<(), String>,
    I: Fn(&Vec<TargetSpec>) -> Result<(), String>,
    N: Fn(&str) -> String,
>(
    load: L,
    open_store: O,
    ingest: I,
    normal_uri: N,
    root: Option<Seq<char>>,
    state: WorkspaceState<ServicesPlan>,
)
    requires
        bootstraps(load, open_store, ingest, normal_uri, root, state),
    ensures
        state is Ready || state is Failed,
        root is None ==> state is Failed,
        root matches Some(root) ==> (state matches WorkspaceState::Ready(plan) ==> builds(
            load,
            open_store,
            ingest,
            normal_uri,
            root,
            Ok(plan),
        )),
{
}

/// A reload that is adopted is made from a model that was fetched again, and knows the build
/// server by the same name; a reload that fails is told as a warning, and says that the services
/// stay as they are.
pub proof fn law_reload_told<
    R: Fn() -> Result<BspProjectModel, String>,
    I: Fn(&Vec<TargetSpec>) -> Result<(), String>,
    N: Fn(&str) -> String,
>(
    refetch: R,
    ingest: I,
    normal_uri: N,
    root: Seq<char>,
    server_name: Option<String>,
    server_version: Option<String>,
    outcome: ReloadOutcome,
)
    requires
        reloads(refetch, ingest, normal_uri, root, server_name, server_version, outcome),
    ensures
        outcome matches ReloadOutcome::Adopt { plan } ==> plan.doctor_targets.server_name
            == server_name && plan.doctor_targets.server_version == server_version && (
        plan.targets@.len() > 0 ==> exists|ingested: Result<(), String>| #[trigger]
            ingest.ensures((&plan.targets,), ingested) && ingested is Ok)
            && exists|model: BspProjectModel| #[trigger]
            refetch.ensures((), Ok(model)) && spec_views(plan.targets@) == specs_of(model.targets@)
                && pc::target_views(plan.pc_targets@) == pc_configs_of(model.targets@),
        outcome matches ReloadOutcome::Keep { warning } ==> warning.level is Warn && text::occurs(
            "keeping the previous ready snapshot"@,
            warning.message@,
        ) && exists|error: String| text::occurs(#[trigger] error@, warning.message@) && (
        refetch.ensures((), Err(error)) || exists|plan: ServicesPlan| #[trigger]
            ingests(ingest, plan, Err(error))),
{
    match outcome {
        ReloadOutcome::Adopt { plan } => {
            let model = choose|model: BspProjectModel| #[trigger]
                refetch.ensures((), Ok(model)) && reloads_from(
                    ingest,
                    normal_uri,
                    root,
                    model,
                    server_name,
                    server_version,
                    outcome,
                );
            assert(refetch.ensures((), Ok(model)));
            assert(spec_views(plan.targets@).len() == plan.targets@.len());
            if plan.targets@.len() > 0 {
                let ingested = choose|ingested: Result<(), String>| #[trigger]
                    ingests(ingest, plan, ingested) && ingested is Ok;
                assert(ingest.ensures((&plan.targets,), ingested));
            }
        },
        ReloadOutcome::Keep { warning } => {
            let stay = "keeping the previous ready snapshot"@;
            let tail = " \u{2014} keeping the previous ready snapshot"@;
            reveal_strlit("keeping the previous ready snapshot");
            reveal_strlit(" \u{2014} keeping the previous ready snapshot");
            assert(tail.subrange(3, 3int + stay.len()) =~= stay);
            assert(text::occurs(stay, tail));
            if exists|detail: String| #[trigger]
                refetch.ensures((), Err(detail)) && warning.says(
                    Level::Warn,
                    "bsp"@,
                    "build target model reload failed: "@ + detail@ + tail,
                ) {
                let detail = choose|detail: String| #[trigger]
                    refetch.ensures((), Err(detail)) && warning.says(
                        Level::Warn,
                        "bsp"@,
                        "build target model reload failed: "@ + detail@ + tail,
                    );
                lemma_kept("build target model reload failed: "@, detail@, tail, stay);
                assert(refetch.ensures((), Err(detail)) && text::occurs(
                    detail@,
                    warning.message@,
                ));
            } else {
                let model = choose|model: BspProjectModel| #[trigger]
                    refetch.ensures((), Ok(model)) && reloads_from(
                        ingest,
                        normal_uri,
                        root,
                        model,
                        server_name,
                        server_version,
                        outcome,
                    );
                let (plan, error) = choose|plan: ServicesPlan, error: String| #[trigger]
                    ingests(ingest, plan, Err(error)) && plans(
                        plan,
                        normal_uri,
                        root,
                        model,
                        server_name,
                        server_version,
                    ) && specs_of(model.targets@).len() > 0 && warning.says(
                        Level::Warn,
                        "bsp"@,
                        "build target model reingest failed: "@ + error@ + tail,
                    );
                lemma_kept("build target model reingest failed: "@, error@, tail, stay);
                assert(ingests(ingest, plan, Err(error)) && text::occurs(
                    error@,
                    warning.message@,
                ));
            }
        },
    }
}

proof fn lemma_kept(front: Seq<char>, error: Seq<char>, tail: Seq<char>, stay: Seq<char>)
    requires
        text::occurs(stay, tail),
    ensures
        text::occurs(error, front + error + tail),
        text::occurs(stay, front + error + tail),
{
    text::lemma_occurs_within(front, error, tail);
    text::lemma_occurs(stay, front + error, tail, seq![]);
    assert(front + error + tail + seq![] =~= front + error + tail);
}

/// A session that is loaded was initialized, and keeps the model that was loaded and who the
/// build server said it is.
pub proof fn law_session_loaded<
    I: Fn() -> Result<(String, String), String>,
    L: Fn() -> Result<BspProjectModel, String>,
>(initialize: I, load: L, ready: ReadyModel)
    requires
        session_loads(initialize, load, Ok(ready)),
    ensures
        load.ensures((), Ok(ready.model)),
        exists|identity: (String, String)| #[trigger]
            initialize.ensures((), Ok(identity)) && ready.server_name == Some(identity.0)
                && ready.server_version == Some(identity.1),
{
}

} // verus!
