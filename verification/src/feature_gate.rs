//! Which durable features this core can read and write. Reading comes first: a
//! version that writes follows one that reads.

use crate::table::{Row, Table};
use crate::text::{cat3, decimal, decimal_text};
use vstd::prelude::*;
use vstd::string::*;

verus! {

/// The versions of a durable feature.
#[derive(Debug, Clone, Copy, PartialEq, Eq, Structural)]
pub struct FeatureContract {
    pub reader_version: u32,
    pub writer_version: u32,
}

/// Why a feature is blocked.
#[derive(Debug)]
pub enum FeatureGateProblem {
    UnknownFeature(String),
    ReaderTooOld { feature: String, have: u32, need: u32 },
    WriterNotEnabled(String),
    WriterVersionDrift { feature: String, bundle: u32, registry: u32 },
}

/// Why a feature is blocked, as a value.
pub ghost enum GateProblemView {
    UnknownFeature(Seq<char>),
    ReaderTooOld { feature: Seq<char>, have: u32, need: u32 },
    WriterNotEnabled(Seq<char>),
    WriterVersionDrift { feature: Seq<char>, bundle: u32, registry: u32 },
}

impl View for FeatureGateProblem {
    type V = GateProblemView;

    open spec fn view(&self) -> GateProblemView {
        match *self {
            FeatureGateProblem::UnknownFeature(f) => GateProblemView::UnknownFeature(f@),
            FeatureGateProblem::ReaderTooOld { feature, have, need } =>
            GateProblemView::ReaderTooOld { feature: feature@, have, need },
            FeatureGateProblem::WriterNotEnabled(f) => GateProblemView::WriterNotEnabled(f@),
            FeatureGateProblem::WriterVersionDrift { feature, bundle, registry } =>
            GateProblemView::WriterVersionDrift { feature: feature@, bundle, registry },
        }
    }
}

impl GateProblemView {
    /// The printed form.
    pub open spec fn message(self) -> Seq<char> {
        match self {
            GateProblemView::UnknownFeature(f) => "未知 durable feature `"@ + f
                + "`(安全阻断,不猜语义)"@,
            GateProblemView::ReaderTooOld { feature, have, need } => "feature `"@ + feature
                + "` reader v"@ + decimal_text(have as nat) + " 低于要求的 v"@ + decimal_text(
                need as nat,
            ) + ":明确阻断(升级 bundle 后重读)"@,
            GateProblemView::WriterNotEnabled(f) => "feature `"@ + f
                + "` writer 未授权(runtime gate 关闭):无生产写路径"@,
            GateProblemView::WriterVersionDrift { feature, bundle, registry } => "feature `"@
                + feature + "` writer 版本漂移(bundle="@ + decimal_text(bundle as nat)
                + ", registry="@ + decimal_text(registry as nat) + ")"@,
        }
    }
}

impl FeatureGateProblem {
    /// The printed form.
    pub fn message(&self) -> (r: String)
        ensures
            r@ == self@.message(),
    {
        match self {
            FeatureGateProblem::UnknownFeature(f) => cat3(
                "未知 durable feature `",
                f.as_str(),
                "`(安全阻断,不猜语义)",
            ),
            FeatureGateProblem::ReaderTooOld { feature, have, need } => {
                let mut m: String = cat3("feature `", feature.as_str(), "` reader v");
                m.append(decimal(*have as u64).as_str());
                m.append(" 低于要求的 v");
                m.append(decimal(*need as u64).as_str());
                m.append(":明确阻断(升级 bundle 后重读)");
                m
            },
            FeatureGateProblem::WriterNotEnabled(f) => cat3(
                "feature `",
                f.as_str(),
                "` writer 未授权(runtime gate 关闭):无生产写路径",
            ),
            FeatureGateProblem::WriterVersionDrift { feature, bundle, registry } => {
                let mut m: String = cat3(
                    "feature `",
                    feature.as_str(),
                    "` writer 版本漂移(bundle=",
                );
                m.append(decimal(*bundle as u64).as_str());
                m.append(", registry=");
                m.append(decimal(*registry as u64).as_str());
                m.append(")");
                m
            },
        }
    }
}

/// The versions of a feature, under its name.
pub struct ContractRow {
    pub name: String,
    pub contract: FeatureContract,
}

/// The versions of a feature, as a value.
pub ghost struct ContractView {
    pub name: Seq<char>,
    pub contract: FeatureContract,
}

impl View for ContractRow {
    type V = ContractView;

    open spec fn view(&self) -> ContractView {
        ContractView { name: self.name@, contract: self.contract }
    }
}

impl Row for ContractRow {
    open spec fn key_of(v: ContractView) -> Seq<char> {
        v.name
    }

    fn key(&self) -> (r: &str) {
        self.name.as_str()
    }
}

/// Whether a feature may be written, under its name.
pub struct SwitchRow {
    pub name: String,
    pub enabled: bool,
}

/// Whether a feature may be written, as a value.
pub ghost struct SwitchView {
    pub name: Seq<char>,
    pub enabled: bool,
}

impl View for SwitchRow {
    type V = SwitchView;

    open spec fn view(&self) -> SwitchView {
        SwitchView { name: self.name@, enabled: self.enabled }
    }
}

impl Row for SwitchRow {
    open spec fn key_of(v: SwitchView) -> Seq<char> {
        v.name
    }

    fn key(&self) -> (r: &str) {
        self.name.as_str()
    }
}

/// The durable features of this core. No feature may be written unless it is switched
/// on.
pub struct DurableFeatureRegistry {
    contracts: Table<ContractRow>,
    writer_enabled: Table<SwitchRow>,
}

/// The durable features of a core, as a value.
pub ghost struct FeaturesView {
    pub contracts: Map<Seq<char>, ContractView>,
    pub writer_enabled: Map<Seq<char>, SwitchView>,
}

impl View for DurableFeatureRegistry {
    type V = FeaturesView;

    closed spec fn view(&self) -> FeaturesView {
        FeaturesView { contracts: self.contracts@, writer_enabled: self.writer_enabled@ }
    }
}

impl FeaturesView {
    /// Whether a feature is switched on for writing.
    pub open spec fn may_write(self, feature: Seq<char>) -> bool {
        self.writer_enabled.contains_key(feature) && self.writer_enabled[feature].enabled
    }

    /// Whether a reader of a version can read a feature.
    pub open spec fn reader(self, feature: Seq<char>, version: u32) -> Result<(), GateProblemView> {
        if !self.contracts.contains_key(feature) {
            Err(GateProblemView::UnknownFeature(feature))
        } else if version < self.contracts[feature].contract.reader_version {
            Err(
                GateProblemView::ReaderTooOld {
                    feature,
                    have: version,
                    need: self.contracts[feature].contract.reader_version,
                },
            )
        } else {
            Ok(())
        }
    }

    /// Whether a bundle may write a feature: it is known, switched on, and the bundle
    /// writes the version that the registry has.
    pub open spec fn writer(self, feature: Seq<char>, bundle: Option<u32>) -> Result<
        (),
        GateProblemView,
    > {
        if !self.contracts.contains_key(feature) {
            Err(GateProblemView::UnknownFeature(feature))
        } else if !self.may_write(feature) {
            Err(GateProblemView::WriterNotEnabled(feature))
        } else {
            match bundle {
                None => Err(GateProblemView::WriterNotEnabled(feature)),
                Some(version) => if version == self.contracts[feature].contract.writer_version {
                    Ok(())
                } else {
                    Err(
                        GateProblemView::WriterVersionDrift {
                            feature,
                            bundle: version,
                            registry: self.contracts[feature].contract.writer_version,
                        },
                    )
                },
            }
        }
    }
}

/// The features that every core has, in the order they came.
pub open spec fn baseline_names() -> Seq<Seq<char>> {
    seq![
        "project-schema-identity"@,
        "catalog-v2"@,
        "service-registry"@,
        "command-receipt-outbox"@,
        "operation-saga"@,
        "terminal-transcript"@,
        "manifest-v3"@,
        "installation-receipt"@,
        "root-host-receipt"@,
    ]
}

/// A feature that version 1 reads and version 2 writes.
pub open spec fn first_version(name: Seq<char>) -> ContractView {
    ContractView { name, contract: FeatureContract { reader_version: 1, writer_version: 2 } }
}

/// The first `n` features of every core.
pub open spec fn baseline_contracts(n: nat) -> Map<Seq<char>, ContractView>
    decreases n,
{
    if n == 0 {
        Map::empty()
    } else {
        baseline_contracts((n - 1) as nat).insert(
            baseline_names()[n - 1],
            first_version(baseline_names()[n - 1]),
        )
    }
}

/// The reader versions of a registry, by name.
pub open spec fn readers(v: Seq<(String, u32)>) -> Map<Seq<char>, u32>
    decreases v.len(),
{
    if v.len() == 0 {
        Map::empty()
    } else {
        readers(v.drop_last()).insert(v.last().0@, v.last().1)
    }
}

impl DurableFeatureRegistry {
    /// The part of the invariant that the value does not show.
    pub closed spec fn wf(self) -> bool {
        self.contracts.wf() && self.writer_enabled.wf()
    }

    /// The features that every core has; none may be written.
    pub fn baseline() -> (r: Self)
        ensures
            r.wf(),
            r@.contracts == baseline_contracts(9),
            r@.writer_enabled == Map::<Seq<char>, SwitchView>::empty(),
    {
        let names: [&str; 9] = [
            "project-schema-identity",
            "catalog-v2",
            "service-registry",
            "command-receipt-outbox",
            "operation-saga",
            "terminal-transcript",
            "manifest-v3",
            "installation-receipt",
            "root-host-receipt",
        ];
        let mut r: DurableFeatureRegistry = DurableFeatureRegistry {
            contracts: Table::new(),
            writer_enabled: Table::new(),
        };
        assert(r@.contracts =~= Map::empty());
        assert(r@.writer_enabled =~= Map::empty());
        let mut i: usize = 0;
        while i < 9
            invariant
                i <= 9,
                r.wf(),
                names@.len() == 9,
                forall|k: int| 0 <= k < 9 ==> (#[trigger] names@[k])@ == baseline_names()[k],
                r@.contracts == baseline_contracts(i as nat),
                r@.writer_enabled == Map::<Seq<char>, SwitchView>::empty(),
            decreases 9 - i,
        {
            r.register(names[i], FeatureContract { reader_version: 1, writer_version: 2 });
            i = i + 1;
        }
        r
    }

    /// Adds a feature, or gives it other versions.
    pub fn register(&mut self, feature: &str, contract: FeatureContract)
        requires
            old(self).wf(),
        ensures
            final(self).wf(),
            final(self)@ == (FeaturesView {
                contracts: old(self)@.contracts.insert(
                    feature@,
                    ContractView { name: feature@, contract },
                ),
                ..old(self)@
            }),
    {
        self.contracts.put(ContractRow { name: feature.to_owned(), contract });
    }

    /// Switches the writing of a feature on or off.
    pub fn set_writer_enabled(&mut self, feature: &str, enabled: bool)
        requires
            old(self).wf(),
        ensures
            final(self).wf(),
            final(self)@ == (FeaturesView {
                writer_enabled: old(self)@.writer_enabled.insert(
                    feature@,
                    SwitchView { name: feature@, enabled },
                ),
                ..old(self)@
            }),
    {
        self.writer_enabled.put(SwitchRow { name: feature.to_owned(), enabled });
    }

    /// The versions of a feature, if it is known.
    pub fn contract(&self, feature: &str) -> (r: Option<FeatureContract>)
        requires
            self.wf(),
        ensures
            r == (if self@.contracts.contains_key(feature@) {
                Some(self@.contracts[feature@].contract)
            } else {
                None
            }),
    {
        match self.contracts.get(feature) {
            Some(row) => Some(row.contract),
            None => None,
        }
    }

    /// Whether a reader of a version can read a feature. What is not known is blocked.
    pub fn check_reader(&self, feature: &str, reader_version: u32) -> (r: Result<
        (),
        FeatureGateProblem,
    >)
        requires
            self.wf(),
        ensures
            crate::handoff::refused(r) == self@.reader(feature@, reader_version),
    {
        match self.contracts.get(feature) {
            None => Err(FeatureGateProblem::UnknownFeature(feature.to_owned())),
            Some(row) => {
                if reader_version < row.contract.reader_version {
                    return Err(
                        FeatureGateProblem::ReaderTooOld {
                            feature: feature.to_owned(),
                            have: reader_version,
                            need: row.contract.reader_version,
                        },
                    );
                }
                Ok(())
            },
        }
    }

    /// Whether a bundle may write a feature.
    pub fn check_writer(&self, feature: &str, bundle_writer_version: Option<u32>) -> (r: Result<
        (),
        FeatureGateProblem,
    >)
        requires
            self.wf(),
        ensures
            crate::handoff::refused(r) == self@.writer(feature@, bundle_writer_version),
    {
        let contract: FeatureContract = match self.contract(feature) {
            Some(c) => c,
            None => {
                return Err(FeatureGateProblem::UnknownFeature(feature.to_owned()));
            },
        };
        let enabled: bool = match self.writer_enabled.get(feature) {
            Some(row) => row.enabled,
            None => false,
        };
        if !enabled {
            return Err(FeatureGateProblem::WriterNotEnabled(feature.to_owned()));
        }
        match bundle_writer_version {
            Some(version) => {
                if version == contract.writer_version {
                    Ok(())
                } else {
                    Err(
                        FeatureGateProblem::WriterVersionDrift {
                            feature: feature.to_owned(),
                            bundle: version,
                            registry: contract.writer_version,
                        },
                    )
                }
            },
            None => Err(FeatureGateProblem::WriterNotEnabled(feature.to_owned())),
        }
    }

    /// The reader version of every known feature.
    pub fn reader_table(&self) -> (r: Vec<(String, u32)>)
        requires
            self.wf(),
        ensures
            readers(r@).dom() == self@.contracts.dom(),
            forall|name: Seq<char>| #[trigger]
                self@.contracts.contains_key(name) ==> readers(r@)[name]
                    == self@.contracts[name].contract.reader_version,
            r@.len() == self@.contracts.dom().len(),
    {
        let keys: Vec<String> = self.contracts.keys();
        let ghost names = crate::text::texts(keys@);
        let ghost all = self@.contracts;
        let mut out: Vec<(String, u32)> = Vec::new();
        let mut i: usize = 0;
        while i < keys.len()
            invariant
                self.wf(),
                all == self@.contracts,
                i <= keys@.len(),
                out@.len() == i,
                names == crate::text::texts(keys@),
                forall|name: Seq<char>| #[trigger] all.contains_key(name) <==> names.contains(name),
                forall|name: Seq<char>| #[trigger]
                    readers(out@).contains_key(name) <==> names.take(i as int).contains(name),
                forall|name: Seq<char>| #[trigger]
                    readers(out@).contains_key(name) ==> readers(out@)[name]
                        == all[name].contract.reader_version,
            decreases keys@.len() - i,
        {
            let ghost had = out@;
            let ghost name = names[i as int];
            assert(name == keys@[i as int]@);
            assert(names.contains(name));
            match self.contracts.get(keys[i].as_str()) {
                Some(row) => {
                    out.push((keys[i].clone(), row.contract.reader_version));
                    assert(out@.drop_last() =~= had);
                    assert(readers(out@) == readers(had).insert(
                        name,
                        all[name].contract.reader_version,
                    ));
                },
                None => {
                    assert(all.contains_key(name));
                },
            }
            proof {
                let more = names.take(i + 1);
                assert(more =~= names.take(i as int).push(name));
                assert forall|n: Seq<char>| #[trigger] readers(out@).contains_key(n) implies readers(
                    out@,
                )[n] == all[n].contract.reader_version by {
                    assert(n == name || readers(had).contains_key(n));
                }
                assert forall|n: Seq<char>| #[trigger]
                    readers(out@).contains_key(n) <==> more.contains(n) by {
                    assert(readers(had).contains_key(n) <==> names.take(i as int).contains(n));
                    if more.contains(n) {
                        let k = choose|k: int| 0 <= k < more.len() && more[k] == n;
                        if k < i {
                            assert(names.take(i as int)[k] == n);
                        }
                    }
                    if names.take(i as int).contains(n) {
                        let k = choose|k: int| 0 <= k < i && names.take(i as int)[k] == n;
                        assert(more[k] == n);
                    }
                    if n == name {
                        assert(more[i as int] == n);
                    }
                }
            }
            i = i + 1;
        }
        proof {
            assert(names.take(i as int) =~= names);
            assert(readers(out@).dom() =~= all.dom());
        }
        out
    }
}

/// Every core starts with features that the version after the reading one writes, and
/// none of them may be written.
pub proof fn law_baseline_reads_before_it_writes(r: FeaturesView, feature: Seq<char>, n: nat)
    requires
        n <= 9,
        r.contracts == baseline_contracts(n),
        r.writer_enabled == Map::<Seq<char>, SwitchView>::empty(),
    ensures
        r.contracts.contains_key(feature) ==> r.contracts[feature].contract.writer_version
            == r.contracts[feature].contract.reader_version + 1,
        forall|bundle: Option<u32>| (#[trigger] r.writer(feature, bundle)) is Err,
    decreases n,
{
    if n > 0 {
        let before = FeaturesView { contracts: baseline_contracts((n - 1) as nat), ..r };
        law_baseline_reads_before_it_writes(before, feature, (n - 1) as nat);
    }
}

} // verus!
