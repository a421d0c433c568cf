use vstd::prelude::*;
use crate::token::TypeToken;
use crate::expr::TurbofishExpression;
use crate::rng::RandomSource;

verus! {

broadcast use vstd::std_specs::vec::axiom_vec_index_decreases;

/// The number of names in the generator's vocabulary.
pub const VOCAB_LEN: u64 = 8;

/// The generator's fixed vocabulary of type names.
pub open spec fn vocab_spec(i: int) -> Seq<u8> {
    if i == 0 {
        seq![65u8]  // A
    } else if i == 1 {
        seq![105u8, 51u8, 50u8]  // i32
    } else if i == 2 {
        seq![117u8, 54u8, 52u8]  // u64
    } else if i == 3 {
        seq![98u8, 111u8, 111u8, 108u8]  // bool
    } else if i == 4 {
        seq![83u8, 116u8, 114u8, 105u8, 110u8, 103u8]  // String
    } else if i == 5 {
        seq![86u8, 101u8, 99u8]  // Vec
    } else if i == 6 {
        seq![79u8, 112u8, 116u8, 105u8, 111u8, 110u8]  // Option
    } else {
        seq![66u8, 111u8, 120u8]  // Box
    }
}

/// A name drawn from the vocabulary.
pub open spec fn in_vocab(name: Seq<u8>) -> bool {
    exists|i: int| 0 <= i < VOCAB_LEN && name == vocab_spec(i)
}

impl TurbofishExpression {
    /// Every token in the tree comes from the generator's vocabulary.
    pub open spec fn from_vocab(&self) -> bool
        decreases *self,
    {
        &&& in_vocab(self.root.name@)
        &&& forall|i: int| 0 <= i < self.args.len() ==> (#[trigger] self.args[i]).from_vocab()
    }
}

/// The vocabulary entry at `idx`.
pub fn vocab_token(idx: u64) -> (t: TypeToken)
    requires
        idx < VOCAB_LEN,
    ensures
        t.wf(),
        t.name@ == vocab_spec(idx as int),
{
    let mut name: Vec<u8> = Vec::new();
    if idx == 0 {
        name.push(65);
    } else if idx == 1 {
        name.push(105);
        name.push(51);
        name.push(50);
    } else if idx == 2 {
        name.push(117);
        name.push(54);
        name.push(52);
    } else if idx == 3 {
        name.push(98);
        name.push(111);
        name.push(111);
        name.push(108);
    } else if idx == 4 {
        name.push(83);
        name.push(116);
        name.push(114);
        name.push(105);
        name.push(110);
        name.push(103);
    } else if idx == 5 {
        name.push(86);
        name.push(101);
        name.push(99);
    } else if idx == 6 {
        name.push(79);
        name.push(112);
        name.push(116);
        name.push(105);
        name.push(111);
        name.push(110);
    } else {
        name.push(66);
        name.push(111);
        name.push(120);
    }
    assert(name@ =~= vocab_spec(idx as int));
    let t = TypeToken { name };
    assert(t.wf());
    t
}

/// Generates a random expression at most `max_depth` levels deep: a
/// vocabulary token at the root and, above depth zero, zero to three
/// recursively generated arguments. Always terminates, and at depth zero
/// always yields a leaf.
pub fn generate<R: RandomSource>(rng: &mut R, max_depth: u64) -> (e: TurbofishExpression)
    ensures
        e.wf(),
        e.from_vocab(),
        e.within_depth(max_depth as int),
        e.args_within(3),
    decreases max_depth,
{
    let idx = rng.pick(VOCAB_LEN);
    let root = vocab_token(idx);
    let mut args: Vec<TurbofishExpression> = Vec::new();
    if max_depth > 0 {
        let n_args = rng.pick(4);
        let mut c: u64 = 0;
        while c < n_args
            invariant
                c <= n_args < 4,
                max_depth >= 1,
                args@.len() == c,
                forall|q: int| 0 <= q < args.len() ==> (#[trigger] args[q]).wf(),
                forall|q: int| 0 <= q < args.len() ==> (#[trigger] args[q]).from_vocab(),
                forall|q: int|
                    0 <= q < args.len() ==> (#[trigger] args[q]).within_depth(
                        max_depth as int - 1,
                    ),
                forall|q: int| 0 <= q < args.len() ==> (#[trigger] args[q]).args_within(3),
            decreases n_args - c,
        {
            let sub = generate(rng, max_depth - 1);
            args.push(sub);
            c += 1;
        }
    }
    let e = TurbofishExpression { root, args };
    assert(e.within_depth(max_depth as int));
    assert(e.args_within(3));
    e
}

/// A secondary, innermost-first strategy: starts from a leaf and wraps it
/// in single-argument nodes, at most `max_depth` times.
pub fn generate_reverse<R: RandomSource>(rng: &mut R, max_depth: u64) -> (e: TurbofishExpression)
    ensures
        e.wf(),
        e.from_vocab(),
        e.within_depth(max_depth as int),
        e.args_within(1),
    decreases max_depth,
{
    let idx = rng.pick(VOCAB_LEN);
    let root = vocab_token(idx);
    if max_depth == 0 {
        TurbofishExpression { root, args: Vec::new() }
    } else {
        let wrap = rng.pick(2);
        if wrap == 0 {
            TurbofishExpression { root, args: Vec::new() }
        } else {
            let inner = generate_reverse(rng, max_depth - 1);
            let mut args: Vec<TurbofishExpression> = Vec::new();
            args.push(inner);
            let e = TurbofishExpression { root, args };
            assert(e.within_depth(max_depth as int));
            assert(e.args_within(1));
            e
        }
    }
}

} // verus!
