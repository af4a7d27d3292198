use vstd::prelude::*;

verus! {

/// A grammar-rule label. When a committed production fails, the failure
/// carries the labels of the enclosing labelled productions, innermost first.
#[derive(Clone, Copy, PartialEq, Eq, Structural, Debug)]
pub enum Ctx {
    InString,
    InArray,
    InMap,
}

/// A parse failure. `fatal == false` is a recoverable mismatch: an ordered
/// choice may still try its next alternative. `fatal == true` means a
/// production had committed past a distinguishing prefix; the failure aborts
/// every enclosing choice. `pos` is the character position of the offending
/// input, `labels` the grammar-rule labels passed on the way out.
#[derive(Debug)]
pub struct ParseError {
    pub fatal: bool,
    pub pos: usize,
    pub labels: Vec<Ctx>,
}

impl ParseError {
    /// A recoverable mismatch at `pos`.
    pub fn mismatch(pos: usize) -> (e: ParseError)
        ensures
            !e.fatal,
            e.pos == pos,
            e.labels@ == Seq::<Ctx>::empty(),
    {
        ParseError { fatal: false, pos, labels: Vec::new() }
    }

    /// A fatal failure at `pos`, with no labels yet.
    pub fn fatal_at(pos: usize) -> (e: ParseError)
        ensures
            e.fatal,
            e.pos == pos,
            e.labels@ == Seq::<Ctx>::empty(),
    {
        ParseError { fatal: true, pos, labels: Vec::new() }
    }

    /// Record that the failure crossed the labelled production `c`.
    pub fn label(self, c: Ctx) -> (e: ParseError)
        ensures
            e.fatal == self.fatal,
            e.pos == self.pos,
            e.labels@ == self.labels@.push(c),
    {
        let mut labels = self.labels;
        labels.push(c);
        ParseError { fatal: self.fatal, pos: self.pos, labels }
    }

    /// Escalate a mismatch to a fatal failure: the production had committed.
    pub fn escalate(self) -> (e: ParseError)
        ensures
            e.fatal,
            e.pos == self.pos,
            e.labels@ == self.labels@,
    {
        ParseError { fatal: true, pos: self.pos, labels: self.labels }
    }
}

/// The outcome of a production in the mathematical model of the grammar:
/// `Found(p, v)` means the production matched, consumed the input up to
/// character position `p`, and produced `v`; `Fail(fatal, pos, labels)`
/// mirrors `ParseError`.
pub enum PRes<T> {
    Found(int, T),
    Fail(bool, int, Seq<Ctx>),
}

/// A recoverable mismatch at `pos`, no labels.
pub open spec fn g_mis<T>(pos: int) -> PRes<T> {
    PRes::Fail(false, pos, Seq::empty())
}

/// A fatal failure at `pos`, no labels.
pub open spec fn g_fatal<T>(pos: int) -> PRes<T> {
    PRes::Fail(true, pos, Seq::empty())
}

/// Escalate any failure to fatal; a success is unchanged.
pub open spec fn g_cut<T>(r: PRes<T>) -> PRes<T> {
    match r {
        PRes::Found(p, v) => PRes::Found(p, v),
        PRes::Fail(_, p, ls) => PRes::Fail(true, p, ls),
    }
}

/// Push the label of an enclosing labelled production onto a failure.
pub open spec fn g_label<T>(r: PRes<T>, c: Ctx) -> PRes<T> {
    match r {
        PRes::Found(p, v) => PRes::Found(p, v),
        PRes::Fail(f, p, ls) => PRes::Fail(f, p, ls.push(c)),
    }
}

/// The executable result `r` realises the model outcome `g`, where `rel`
/// says when an executable value realises a model value.
pub open spec fn agrees<E, G>(
    r: Result<(usize, E), ParseError>,
    g: PRes<G>,
    rel: spec_fn(E, G) -> bool,
) -> bool {
    match g {
        PRes::Found(p, gv) => match r {
            Ok((rp, ev)) => rp as int == p && rel(ev, gv),
            Err(_) => false,
        },
        PRes::Fail(f, p, ls) => match r {
            Ok(_) => false,
            Err(e) => e.fatal == f && e.pos as int == p && e.labels@ == ls,
        },
    }
}

} // verus!
