use vstd::prelude::*;
use crate::token::TypeToken;

verus! {

broadcast use vstd::std_specs::vec::axiom_vec_index_decreases, vstd::std_specs::vec::axiom_vec_decreases_to_view, vstd::seq::axiom_seq_index_decreases;

/// A nested generic instantiation such as `Vec::<Option::<i32>, u64>`: a
/// root token and an ordered sequence of zero or more nested arguments.
/// A value with no arguments is a leaf and renders as the bare token.
pub struct TurbofishExpression {
    pub root: TypeToken,
    pub args: Vec<TurbofishExpression>,
}

impl TurbofishExpression {
    /// Every token in the tree is well formed.
    pub open spec fn wf(&self) -> bool
        decreases *self,
    {
        &&& self.root.wf()
        &&& forall|i: int| 0 <= i < self.args.len() ==> (#[trigger] self.args[i]).wf()
    }

    /// The tree nests at most `d` levels below its root: a leaf fits any
    /// depth, and a node needs one level for itself and `d - 1` for its
    /// arguments.
    pub open spec fn within_depth(&self, d: int) -> bool
        decreases *self,
    {
        if self.args.len() == 0 {
            true
        } else {
            &&& d >= 1
            &&& forall|i: int|
                0 <= i < self.args.len() ==> (#[trigger] self.args[i]).within_depth(d - 1)
        }
    }

    /// Every node in the tree has at most `n` arguments.
    pub open spec fn args_within(&self, n: int) -> bool
        decreases *self,
    {
        &&& self.args.len() <= n
        &&& forall|i: int| 0 <= i < self.args.len() ==> (#[trigger] self.args[i]).args_within(n)
    }
}

/// The rendered form of an expression: the bare token for a leaf, and
/// `Root::<Arg1, Arg2, ...>` for a node, arguments rendered recursively.
pub open spec fn render_of(e: TurbofishExpression) -> Seq<u8>
    decreases e, 0int,
{
    if e.args.len() == 0 {
        e.root.name@
    } else {
        e.root.name@ + seq![58u8, 58u8, 60u8] + render_args_of(e.args@, 0) + seq![62u8]
    }
}

/// The rendered arguments from position `from` on, separated by `, `.
pub open spec fn render_args_of(args: Seq<TurbofishExpression>, from: int) -> Seq<u8>
    decreases args, args.len() - from,
{
    if from < 0 || from >= args.len() {
        Seq::empty()
    } else if from == args.len() - 1 {
        render_of(args[from])
    } else {
        render_of(args[from]) + seq![44u8, 32u8] + render_args_of(args, from + 1)
    }
}

/// The characters spelled by a sequence of ASCII-range bytes.
pub open spec fn chars_of(v: Seq<u8>) -> Seq<char> {
    Seq::new(v.len(), |i: int| v[i] as char)
}

/// Relies on String::push: appends the given character to the string.
#[verifier::external_body]
pub(crate) fn push_char(s: &mut String, c: char)
    ensures
        final(s)@ == old(s)@.push(c),
{
    s.push(c);
}

/// Turns raw bytes into the text they spell, one character per byte.
pub fn to_text(v: &Vec<u8>) -> (s: String)
    ensures
        s@ == chars_of(v@),
{
    let mut s = String::new();
    let mut i: usize = 0;
    while i < v.len()
        invariant
            0 <= i <= v@.len(),
            s@ == chars_of(v@.subrange(0, i as int)),
        decreases v@.len() - i,
    {
        push_char(&mut s, v[i] as char);
        i += 1;
        assert(s@ =~= chars_of(v@.subrange(0, i as int)));
    }
    assert(s@ =~= chars_of(v@));
    s
}

/// Renders the expression to its byte form.
pub fn render_bytes(e: &TurbofishExpression) -> (out: Vec<u8>)
    ensures
        out@ == render_of(*e),
    decreases *e, 0int,
{
    let mut out: Vec<u8> = Vec::new();
    let mut i: usize = 0;
    while i < e.root.name.len()
        invariant
            0 <= i <= e.root.name@.len(),
            out@ == e.root.name@.subrange(0, i as int),
        decreases e.root.name@.len() - i,
    {
        out.push(e.root.name[i]);
        i += 1;
        assert(out@ =~= e.root.name@.subrange(0, i as int));
    }
    assert(out@ =~= e.root.name@);
    if e.args.len() > 0 {
        out.push(58);
        out.push(58);
        out.push(60);
        render_args_into(&e.args, 0, &mut out);
        out.push(62);
        assert(out@ =~= render_of(*e));
    }
    out
}

/// Appends the rendered arguments from position `from` on, separated by `, `.
fn render_args_into(args: &Vec<TurbofishExpression>, from: usize, out: &mut Vec<u8>)
    requires
        from < args@.len(),
    ensures
        final(out)@ == old(out)@ + render_args_of(args@, from as int),
    decreases *args, args@.len() - from,
{
    let n = args.len();
    let mut sub = render_bytes(&args[from]);
    out.append(&mut sub);
    if from + 1 < n {
        out.push(44);
        out.push(32);
        render_args_into(args, from + 1, out);
        assert(out@ =~= old(out)@ + render_args_of(args@, from as int));
    }
}

/// Renders the expression to text: the bare token name for a leaf, and
/// `Root::<Arg1, Arg2, ...>` for a node.
pub fn render(e: &TurbofishExpression) -> (s: String)
    ensures
        s@ == chars_of(render_of(*e)),
{
    let bytes = render_bytes(e);
    to_text(&bytes)
}

/// Rendering is deterministic: the text is a function of the expression
/// tree alone, so equal trees always render to the same string.
pub proof fn lemma_render_deterministic(a: TurbofishExpression, b: TurbofishExpression)
    requires
        a == b,
    ensures
        render_of(a) == render_of(b),
        chars_of(render_of(a)) == chars_of(render_of(b)),
{
}

} // verus!
