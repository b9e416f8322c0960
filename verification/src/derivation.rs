//! Derivations: the builds that Nix is asked for.

use bytes::Bytes;
use vstd::prelude::*;

use crate::environment::Environment;
use crate::octets;
use crate::store::{OutputName, StorePath};
use crate::text;

verus! {

/// Something that a build reads: a path that is in the store, or an output of a derivation that
/// is in the store.
#[derive(Debug)]
pub enum SingleDerivedPath {
    Opaque(StorePath),
    Built { drv_path: StorePath, output: OutputName },
}

/// What a `SingleDerivedPath` says, with the store path as text.
pub enum Input {
    Opaque(Seq<char>),
    Built(Seq<char>, OutputName),
}

impl View for SingleDerivedPath {
    type V = Input;

    open spec fn view(&self) -> Input {
        match self {
            SingleDerivedPath::Opaque(path) => Input::Opaque(path@),
            SingleDerivedPath::Built { drv_path, output } => Input::Built(drv_path@, *output),
        }
    }
}

/// Tells whether two inputs are the same.
fn same_input(a: &SingleDerivedPath, b: &SingleDerivedPath) -> (same: bool)
    ensures
        same == (a@ == b@),
{
    match (a, b) {
        (SingleDerivedPath::Opaque(p), SingleDerivedPath::Opaque(q)) => text::same_text(
            p.to_base_path(),
            q.to_base_path(),
        ),
        (
            SingleDerivedPath::Built { drv_path: p, output: x },
            SingleDerivedPath::Built { drv_path: q, output: y },
        ) => text::same_text(p.to_base_path(), q.to_base_path()) && *x == *y,
        _ => false,
    }
}

/// The inputs that are listed.
pub open spec fn listed_inputs(items: Seq<SingleDerivedPath>) -> Set<Input> {
    items.map_values(|item: SingleDerivedPath| item@).to_set()
}

/// No input is listed twice.
pub open spec fn is_distinct(items: Seq<SingleDerivedPath>) -> bool {
    forall|i: int, j: int|
        0 <= i < j < items.len() ==> (#[trigger] items[i])@ != (#[trigger] items[j])@
}

/// The inputs of a build, each of them once.
#[derive(Debug)]
pub struct Inputs {
    items: Vec<SingleDerivedPath>,
}

impl View for Inputs {
    type V = Set<Input>;

    closed spec fn view(&self) -> Set<Input> {
        listed_inputs(self.items@)
    }
}

impl Inputs {
    #[verifier::type_invariant]
    spec fn wf(self) -> bool {
        is_distinct(self.items@)
    }

    /// No inputs.
    pub fn new() -> (r: Inputs)
        ensures
            r@ == Set::<Input>::empty(),
    {
        let r = Inputs { items: Vec::new() };
        assert(r@ =~= Set::empty());
        r
    }

    /// Adds an input, unless it is there.
    pub fn insert(&mut self, item: SingleDerivedPath)
        ensures
            final(self)@ == old(self)@.insert(item@),
    {
        proof {
            use_type_invariant(&*self);
        }
        let mut items: Vec<SingleDerivedPath> = Vec::new();
        std::mem::swap(&mut items, &mut self.items);
        let ghost before = items@;
        let ghost inputs = before.map_values(|item: SingleDerivedPath| item@);
        let mut i: usize = 0;
        while i < items.len()
            invariant
                i <= items.len(),
                items@ == before,
                is_distinct(before),
                inputs == before.map_values(|item: SingleDerivedPath| item@),
                listed_inputs(before) == old(self)@,
                self.items@.len() == 0,
                forall|j: int| 0 <= j < i ==> (#[trigger] before[j])@ != item@,
            decreases items.len() - i,
        {
            if same_input(&items[i], &item) {
                assert(inputs[i as int] == item@);
                assert(listed_inputs(before) =~= listed_inputs(before).insert(item@));
                self.items = items;
                return ;
            }
            i += 1;
        }
        items.push(item);
        proof {
            let after = items@.map_values(|item: SingleDerivedPath| item@);
            assert(after =~= inputs.push(item@));
            inputs.lemma_push_to_set_commute(item@);
        }
        self.items = items;
    }

    /// Adds a path that is in the store.
    pub fn insert_path(&mut self, path: &StorePath)
        ensures
            final(self)@ == old(self)@.insert(Input::Opaque(path@)),
    {
        self.insert(SingleDerivedPath::Opaque(path.clone()));
    }

    /// Adds an output of a derivation.
    pub fn insert_output(&mut self, drv_path: &StorePath, output: OutputName)
        ensures
            final(self)@ == old(self)@.insert(Input::Built(drv_path@, output)),
    {
        self.insert(SingleDerivedPath::Built { drv_path: drv_path.clone(), output });
    }

    /// The inputs in a list.
    pub fn into_items(self) -> (r: Vec<SingleDerivedPath>)
        ensures
            is_distinct(r@),
            self@ == listed_inputs(r@),
    {
        proof {
            use_type_invariant(&self);
        }
        self.items
    }
}

/// How the content of an output is hashed.
#[derive(Debug, Clone, Copy, PartialEq, Eq, Structural)]
pub enum Algorithm {
    SHA256,
}

/// What of an output is hashed, and how.
#[derive(Debug, Clone, Copy, PartialEq, Eq, Structural)]
pub enum ContentAddressMethodAlgorithm {
    /// The whole file tree, in the archive format of Nix.
    NixArchive(Algorithm),
}

/// How the store path of an output is found.
#[derive(Debug, Clone, Copy, PartialEq, Eq, Structural)]
pub enum DerivationOutput {
    /// From the content, once that is there.
    CAFloating(ContentAddressMethodAlgorithm),
}

/// A build that Nix is asked for. Its outputs are addressed by their content.
#[derive(Debug)]
pub struct Derivation {
    pub name: String,
    pub outputs: Vec<(OutputName, DerivationOutput)>,
    pub inputs: Inputs,
    pub platform: Bytes,
    pub builder: Bytes,
    pub args: Vec<Bytes>,
    pub env: Environment,
}

/// What a derivation says.
pub struct Build {
    pub name: Seq<char>,
    pub outputs: Seq<(OutputName, DerivationOutput)>,
    pub inputs: Set<Input>,
    pub platform: Seq<u8>,
    pub builder: Seq<u8>,
    pub args: Seq<Seq<u8>>,
    pub env: Map<Seq<u8>, Seq<u8>>,
}

impl View for Derivation {
    type V = Build;

    open spec fn view(&self) -> Build {
        Build {
            name: self.name@,
            outputs: self.outputs@,
            inputs: self.inputs@,
            platform: octets::octets(self.platform),
            builder: octets::octets(self.builder),
            args: octets::all_octets(self.args@),
            env: self.env@,
        }
    }
}

/// An output whose path is found from the hash of its whole file tree.
pub open spec fn floating() -> DerivationOutput {
    DerivationOutput::CAFloating(ContentAddressMethodAlgorithm::NixArchive(Algorithm::SHA256))
}

/// An input is among those that are listed exactly where one of the list says it.
pub proof fn law_listed_inputs(items: Seq<SingleDerivedPath>, input: Input)
    ensures
        listed_inputs(items).contains(input) <==> exists|i: int|
            0 <= i < items.len() && (match #[trigger] items[i] {
                SingleDerivedPath::Opaque(path) => input == Input::Opaque(path@),
                SingleDerivedPath::Built { drv_path, output } => input == Input::Built(
                    drv_path@,
                    output,
                ),
            }),
{
    let inputs = items.map_values(|item: SingleDerivedPath| item@);
    if listed_inputs(items).contains(input) {
        let i = choose|i: int| 0 <= i < inputs.len() && inputs[i] == input;
        assert(items[i]@ == input);
    }
    assert forall|i: int| 0 <= i < items.len() && (#[trigger] items[i])@ == input implies listed_inputs(
        items,
    ).contains(input) by {
        assert(inputs[i] == input);
    }
}

/// What a derivation says is what each of its fields says.
pub proof fn law_build_is_the_derivation(drv: Derivation, k: int)
    ensures
        drv@.name == drv.name@,
        drv@.outputs == drv.outputs@,
        drv@.inputs == drv.inputs@,
        drv@.platform == octets::octets(drv.platform),
        drv@.builder == octets::octets(drv.builder),
        drv@.env == drv.env@,
        drv@.args.len() == drv.args@.len(),
        0 <= k < drv.args@.len() ==> drv@.args[k] == octets::octets(drv.args@[k]),
{
}

} // verus!
