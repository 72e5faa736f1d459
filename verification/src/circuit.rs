//! Where the circuits' artifacts are found: the names of the transact and
//! proof-of-innocence circuits for a number of inputs and outputs, the paths
//! of their proving keys and witness programs, and when a loaded witness
//! program can be used again.

use crate::amount::pad_zeros;
use crate::decimal::{decimal_digits, push_decimal};
use vstd::prelude::*;
use vstd::string::StringExecFns;

verus! {

/// Appends `n` in decimal, padded with zeros to at least two digits, as
/// `{:02}` writes it.
fn push_two_digits(s: &mut String, n: u64)
    ensures
        final(s)@ == old(s)@ + pad_zeros(decimal_digits(n as nat), 2),
{
    proof {
        if n >= 10 {
            crate::decimal::lemma_decimal_digits((n / 10) as nat);
        }
    }
    if n < 10 {
        s.append("0");
    }
    push_decimal(s, n as u128);
    proof {
        reveal_strlit("0");
    }
    assert(final(s)@ =~= old(s)@ + pad_zeros(decimal_digits(n as nat), 2));
}

/// The name of the transact circuit with `nullifiers` inputs and
/// `commitments` outputs: `railgun/NNxMM`, each count in at least two digits.
pub open spec fn transact_circuit_name_spec(nullifiers: u64, commitments: u64) -> Seq<char> {
    "railgun/"@ + pad_zeros(decimal_digits(nullifiers as nat), 2) + "x"@ + pad_zeros(
        decimal_digits(commitments as nat),
        2,
    )
}

/// The name of the proof-of-innocence circuit with `nullifiers` inputs and
/// `commitments` outputs: `railgun/poi/NNxMM`.
pub open spec fn poi_circuit_name_spec(nullifiers: u64, commitments: u64) -> Seq<char> {
    "railgun/poi/"@ + pad_zeros(decimal_digits(nullifiers as nat), 2) + "x"@ + pad_zeros(
        decimal_digits(commitments as nat),
        2,
    )
}

/// The name of the transact circuit for `nullifiers` inputs and
/// `commitments` outputs.
pub fn transact_circuit_name(nullifiers: u64, commitments: u64) -> (r: String)
    ensures
        r@ == transact_circuit_name_spec(nullifiers, commitments),
{
    let mut s = String::from_str("railgun/");
    push_two_digits(&mut s, nullifiers);
    s.append("x");
    push_two_digits(&mut s, commitments);
    s
}

/// The name of the proof-of-innocence circuit for `nullifiers` inputs and
/// `commitments` outputs.
pub fn poi_circuit_name(nullifiers: u64, commitments: u64) -> (r: String)
    ensures
        r@ == poi_circuit_name_spec(nullifiers, commitments),
{
    let mut s = String::from_str("railgun/poi/");
    push_two_digits(&mut s, nullifiers);
    s.append("x");
    push_two_digits(&mut s, commitments);
    s
}

/// The path of the proving key of `circuit` under the directory `dir`:
/// `<dir>/<circuit>.zkey`.
pub fn zkey_path(dir: &str, circuit: &str) -> (r: String)
    ensures
        r@ == dir@ + "/"@ + circuit@ + ".zkey"@,
{
    String::from_str(dir).concat("/").concat(circuit).concat(".zkey")
}

/// The path of the witness program of `circuit` under the directory `dir`:
/// `<dir>/<circuit>.wasm`.
pub fn wasm_path(dir: &str, circuit: &str) -> (r: String)
    ensures
        r@ == dir@ + "/"@ + circuit@ + ".wasm"@,
{
    String::from_str(dir).concat("/").concat(circuit).concat(".wasm")
}

/// Whether the witness program must be loaded for `circuit`: none is loaded
/// yet, or the one loaded is another circuit's.
pub fn needs_reload(loaded: Option<&str>, circuit: &str) -> (r: bool)
    ensures
        r == (match loaded {
            Some(name) => name@ != circuit@,
            None => true,
        }),
{
    match loaded {
        Some(name) => {
            let a = String::from_str(name);
            let b = String::from_str(circuit);
            !(a == b)
        },
        None => true,
    }
}

/// The path of the witness program of `circuit` under `dir`.
pub open spec fn wasm_path_spec(dir: Seq<char>, circuit: Seq<char>) -> Seq<char> {
    dir + "/"@ + circuit + ".wasm"@
}

/// The witness program last loaded, kept for the next witness of the same
/// circuit: the directory the programs are read from, and the circuit whose
/// program is loaded with its calculator.
pub struct WitnessCache<C> {
    dir: String,
    loaded: Option<(String, C)>,
}

impl<C> WitnessCache<C> {
    /// The directory the programs are read from.
    pub closed spec fn spec_dir(self) -> Seq<char> {
        self.dir@
    }

    /// The circuit whose program is loaded, if any.
    pub closed spec fn spec_loaded(self) -> Option<Seq<char>> {
        match self.loaded {
            Some((name, _)) => Some(name@),
            None => None,
        }
    }

    /// The calculator loaded, if any.
    pub closed spec fn spec_calculator(self) -> Option<C> {
        match self.loaded {
            Some((_, c)) => Some(c),
            None => None,
        }
    }

    /// The file the loaded calculator was read from: the program of the
    /// loaded circuit.
    pub open spec fn spec_source(self) -> Option<Seq<char>> {
        match self.spec_loaded() {
            Some(name) => Some(wasm_path_spec(self.spec_dir(), name)),
            None => None,
        }
    }

    /// A cache of the programs under `dir`, with none loaded.
    pub fn new(dir: &str) -> (r: WitnessCache<C>)
        ensures
            r.spec_dir() == dir@,
            r.spec_loaded() is None,
            r.spec_calculator() is None,
    {
        WitnessCache { dir: String::from_str(dir), loaded: None }
    }

    /// What must be loaded before a witness of `circuit` is computed: `None`
    /// when its program is the one loaded, else the path of its program.
    pub fn load_request(&self, circuit: &str) -> (r: Option<String>)
        ensures
            r is None <==> self.spec_loaded() == Some(circuit@),
            r matches Some(path) ==> path@ == wasm_path_spec(self.spec_dir(), circuit@),
    {
        let reload = match &self.loaded {
            Some((name, _)) => needs_reload(Some(name.as_str()), circuit),
            None => needs_reload(None, circuit),
        };
        if reload {
            Some(wasm_path(self.dir.as_str(), circuit))
        } else {
            None
        }
    }

    /// Keeps `calculator`, loaded from the program of `circuit`, in place of
    /// the one loaded before. A load that fails calls nothing, and the cache
    /// stays as it was.
    pub fn on_loaded(&mut self, circuit: &str, calculator: C)
        ensures
            final(self).spec_dir() == old(self).spec_dir(),
            final(self).spec_loaded() == Some(circuit@),
            final(self).spec_calculator() == Some(calculator),
    {
        self.loaded = Some((String::from_str(circuit), calculator));
    }

    /// The loaded calculator, to compute a witness with.
    pub fn calculator(&mut self) -> (r: &mut C)
        requires
            old(self).spec_loaded() is Some,
        ensures
            Some(*r) == old(self).spec_calculator(),
            final(self).spec_calculator() == Some(*final(r)),
            final(self).spec_loaded() == old(self).spec_loaded(),
            final(self).spec_dir() == old(self).spec_dir(),
    {
        let pair = self.loaded.as_mut().unwrap();
        &mut pair.1
    }
}

/// Whether `after` is the cache `before` once a witness of `circuit` is
/// computed: the program of `circuit` is loaded in place of another one (or
/// of none), and kept where it is already the one loaded.
pub open spec fn is_witness_step<C>(before: WitnessCache<C>, after: WitnessCache<C>, circuit: Seq<char>) -> bool {
    &&& after.spec_dir() == before.spec_dir()
    &&& after.spec_loaded() == Some(circuit)
    &&& before.spec_loaded() == Some(circuit) ==> after.spec_calculator() == before.spec_calculator()
}

/// The cache is transparent: over any run of witnesses from an empty cache,
/// the calculator used for each witness was read from its circuit's program
/// under the cache's directory, the very file that a fresh calculator would
/// read; and a program is loaded exactly for the first witness and for each
/// witness whose circuit differs from the one before it.
pub proof fn lemma_witness_cache_transparent<C>(states: Seq<WitnessCache<C>>, circuits: Seq<Seq<char>>)
    requires
        states.len() == circuits.len() + 1,
        states[0].spec_loaded() is None,
        forall|i: int| 0 <= i < circuits.len() ==> is_witness_step(states[i], #[trigger] states[i + 1], circuits[i]),
    ensures
        forall|i: int|
            0 <= i < circuits.len() ==> (#[trigger] states[i + 1]).spec_source() == Some(
                wasm_path_spec(states[0].spec_dir(), circuits[i]),
            ),
        forall|i: int|
            0 <= i < circuits.len() ==> ((#[trigger] states[i]).spec_loaded() != Some(circuits[i]) <==> (i == 0
                || circuits[i - 1] != circuits[i])),
{
    assert forall|i: int| 0 <= i <= circuits.len() implies (#[trigger] states[i]).spec_dir() == states[0].spec_dir() by {
        lemma_witness_cache_dir(states, circuits, i);
    }
    assert forall|i: int| 0 <= i < circuits.len() implies (#[trigger] states[i + 1]).spec_source() == Some(
        wasm_path_spec(states[0].spec_dir(), circuits[i]),
    ) by {
        assert(is_witness_step(states[i], states[i + 1], circuits[i]));
        assert(states[i + 1].spec_dir() == states[0].spec_dir());
    }
    assert forall|i: int| 0 <= i < circuits.len() implies ((#[trigger] states[i]).spec_loaded() != Some(circuits[i])
        <==> (i == 0 || circuits[i - 1] != circuits[i])) by {
        if i > 0 {
            let k = i - 1;
            assert(states[k + 1] == states[i]);
            assert(is_witness_step(states[k], states[k + 1], circuits[k]));
        }
    }
}

proof fn lemma_witness_cache_dir<C>(states: Seq<WitnessCache<C>>, circuits: Seq<Seq<char>>, i: int)
    requires
        states.len() == circuits.len() + 1,
        forall|k: int| 0 <= k < circuits.len() ==> is_witness_step(states[k], #[trigger] states[k + 1], circuits[k]),
        0 <= i <= circuits.len(),
    ensures
        states[i].spec_dir() == states[0].spec_dir(),
    decreases i,
{
    if i > 0 {
        lemma_witness_cache_dir(states, circuits, i - 1);
        let k = i - 1;
        assert(states[k + 1] == states[i]);
        assert(is_witness_step(states[k], states[k + 1], circuits[k]));
    }
}

} // verus!
