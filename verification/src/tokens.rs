use vstd::prelude::*;

verus! {

broadcast use
    vstd::std_specs::vec::axiom_vec_index_decreases,
    vstd::std_specs::vec::axiom_vec_decreases_to_view,
    vstd::seq::axiom_seq_index_decreases;

/// The mathematical shape of a token: a [`ChemfigToken`] with every
/// executable payload replaced by its abstract value. Contracts throughout
/// the crate speak of these values.
#[verifier::ext_equal]
pub enum TokenModel {
    Element(Seq<char>),
    Bond(nat),
    Group(Seq<TokenModel>),
    Ring(Seq<TokenModel>, nat),
}

/// A parsed token: an element symbol (one ASCII uppercase letter followed
/// by zero or more lowercase letters), a bond with its order, a
/// parenthesised group of tokens, or a ring (a group together with the
/// order of its closing bond). Tokens are value types; a group or ring owns
/// its children exclusively, so nesting is tree-shaped.
#[derive(Debug, PartialEq, Eq)]
pub enum ChemfigToken {
    Element(String),
    Bond(usize),
    Group(Vec<ChemfigToken>),
    Ring(Vec<ChemfigToken>, usize),
}

impl ChemfigToken {
    /// The abstract value of this token, with nested tokens abstracted in
    /// turn.
    pub open spec fn model(self) -> TokenModel
        decreases self,
    {
        match self {
            ChemfigToken::Element(sym) => TokenModel::Element(sym@),
            ChemfigToken::Bond(order) => TokenModel::Bond(order as nat),
            ChemfigToken::Group(items) => TokenModel::Group(models(items@)),
            ChemfigToken::Ring(items, order) => TokenModel::Ring(models(items@), order as nat),
        }
    }
}

impl View for ChemfigToken {
    type V = TokenModel;

    open spec fn view(&self) -> TokenModel {
        self.model()
    }
}

/// The abstract values of a sequence of tokens, element by element.
pub open spec fn models(toks: Seq<ChemfigToken>) -> Seq<TokenModel>
    decreases toks,
{
    Seq::new(
        toks.len(),
        |k: int|
            if 0 <= k < toks.len() {
                toks[k].model()
            } else {
                arbitrary()
            },
    )
}

/// Deep-copies every token of `items`. Each copy has the abstract value of
/// its original.
fn clone_items(items: &Vec<ChemfigToken>) -> (r: Vec<ChemfigToken>)
    ensures
        r@.len() == items@.len(),
        forall|k: int| 0 <= k < items@.len() ==> (#[trigger] r@[k])@ == items@[k]@,
    decreases *items,
{
    let mut out: Vec<ChemfigToken> = Vec::new();
    let mut k: usize = 0;
    while k < items.len()
        invariant
            k <= items@.len(),
            out@.len() == k,
            forall|j: int| 0 <= j < k ==> (#[trigger] out@[j])@ == items@[j]@,
        decreases items@.len() - k,
    {
        let t = items[k].clone();
        out.push(t);
        k = k + 1;
    }
    out
}

impl Clone for ChemfigToken {
    /// A deep copy: the clone has the same abstract value as the original.
    fn clone(&self) -> (r: Self)
        ensures
            r@ == self@,
        decreases *self,
    {
        match self {
            ChemfigToken::Element(sym) => ChemfigToken::Element(sym.clone()),
            ChemfigToken::Bond(order) => ChemfigToken::Bond(*order),
            ChemfigToken::Group(items) => {
                let copied = clone_items(items);
                proof {
                    assert(models(copied@) =~= models(items@));
                }
                ChemfigToken::Group(copied)
            },
            ChemfigToken::Ring(items, order) => {
                let copied = clone_items(items);
                proof {
                    assert(models(copied@) =~= models(items@));
                }
                ChemfigToken::Ring(copied, *order)
            },
        }
    }
}

/// The parser's accumulator and its output: an ordered,
/// insertion-order-significant sequence of tokens.
#[derive(Debug)]
pub struct ChemfigTokenStream(Vec<ChemfigToken>);

impl View for ChemfigTokenStream {
    type V = Seq<TokenModel>;

    open spec fn view(&self) -> Seq<TokenModel> {
        models(self.toks())
    }
}

impl Clone for ChemfigTokenStream {
    /// A deep copy: the clone holds tokens with the same abstract values.
    fn clone(&self) -> (r: Self)
        ensures
            r@ == self@,
    {
        let copied = clone_items(&self.0);
        proof {
            assert(models(copied@) =~= models(self.0@));
        }
        ChemfigTokenStream(copied)
    }
}

impl ChemfigTokenStream {
    /// The executable tokens held, in order.
    pub closed spec fn toks(&self) -> Seq<ChemfigToken> {
        self.0@
    }

    /// An empty stream.
    pub fn new() -> (s: Self)
        ensures
            s.toks() == Seq::<ChemfigToken>::empty(),
            s@ == Seq::<TokenModel>::empty(),
    {
        let s = ChemfigTokenStream(Vec::new());
        proof {
            assert(s@ =~= Seq::<TokenModel>::empty());
        }
        s
    }

    /// How many tokens the stream holds.
    pub fn token_count(&self) -> (n: usize)
        ensures
            n == self@.len(),
            n == self.toks().len(),
    {
        self.0.len()
    }

    /// Appends one token at the end.
    pub fn push_token(&mut self, token: ChemfigToken)
        ensures
            final(self).toks() == old(self).toks().push(token),
            final(self)@ == old(self)@.push(token@),
    {
        let ghost prior = self@;
        let ghost t_model = token@;
        self.0.push(token);
        proof {
            assert(self@ =~= prior.push(t_model));
        }
    }

    /// Removes and returns the token at `idx`; later tokens shift left.
    pub fn remove(&mut self, idx: usize) -> (t: ChemfigToken)
        requires
            idx < old(self)@.len(),
        ensures
            t == old(self).toks()[idx as int],
            final(self).toks() == old(self).toks().remove(idx as int),
            t@ == old(self)@[idx as int],
            final(self)@ == old(self)@.remove(idx as int),
    {
        let t = self.0.remove(idx);
        proof {
            assert(self@ =~= old(self)@.remove(idx as int));
        }
        t
    }

    /// Removes the contiguous range `[from, to)` and returns its tokens in
    /// order; the tokens before and after the range stay, in order.
    pub fn remove_range(&mut self, from: usize, to: usize) -> (drained: Vec<ChemfigToken>)
        requires
            from <= to <= old(self)@.len(),
        ensures
            drained@ == old(self).toks().subrange(from as int, to as int),
            final(self).toks() == old(self).toks().subrange(0, from as int)
                + old(self).toks().subrange(to as int, old(self).toks().len() as int),
            models(drained@) == old(self)@.subrange(from as int, to as int),
            final(self)@ == old(self)@.subrange(0, from as int) + old(self)@.subrange(
                to as int,
                old(self)@.len() as int,
            ),
    {
        let ghost orig = self.toks();
        let mut drained: Vec<ChemfigToken> = Vec::new();
        let mut i: usize = 0;
        let count: usize = to - from;
        while i < count
            invariant
                i <= count,
                count == to - from,
                from <= to <= orig.len(),
                drained@ =~= orig.subrange(from as int, from + i),
                self.toks() =~= orig.subrange(0, from as int) + orig.subrange(
                    from + i,
                    orig.len() as int,
                ),
            decreases count - i,
        {
            let t = self.remove(from);
            drained.push(t);
            i = i + 1;
            proof {
                assert(drained@ =~= orig.subrange(from as int, from + i));
                assert(self.toks() =~= orig.subrange(0, from as int) + orig.subrange(
                    from + i,
                    orig.len() as int,
                ));
            }
        }
        proof {
            assert(drained@ =~= orig.subrange(from as int, to as int));
            assert(self.toks() =~= orig.subrange(0, from as int) + orig.subrange(
                to as int,
                orig.len() as int,
            ));
            assert(models(drained@) =~= old(self)@.subrange(from as int, to as int));
            assert(self@ =~= old(self)@.subrange(0, from as int) + old(self)@.subrange(
                to as int,
                old(self)@.len() as int,
            ));
        }
        drained
    }

    /// Read access to the underlying tokens, for forward iteration.
    pub fn iter(&self) -> (r: &Vec<ChemfigToken>)
        ensures
            r@ == self.toks(),
    {
        &self.0
    }
}

} // verus!
