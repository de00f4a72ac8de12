//! One parsed row of the input: an ordered sequence of field byte strings,
//! together with the bracketed rendering used when a whole record is printed.

use vstd::prelude::*;

verus! {

/// Double quote.
pub const QUOTE: u8 = 34;
/// Line feed.
pub const LF: u8 = 10;
/// Carriage return.
pub const CR: u8 = 13;

/// One parsed logical row: an ordered sequence of field byte strings.
pub struct Record {
    pub fields: Vec<Vec<u8>>,
}

impl View for Record {
    type V = Seq<Seq<u8>>;

    open spec fn view(&self) -> Seq<Seq<u8>> {
        Seq::new(self.fields@.len(), |i: int| self.fields@[i]@)
    }
}

impl Record {
    /// A record with no fields.
    pub fn new() -> (r: Record)
        ensures
            r@ == Seq::<Seq<u8>>::empty(),
    {
        let r = Record { fields: Vec::new() };
        proof {
            assert(r@ =~= Seq::<Seq<u8>>::empty());
        }
        r
    }

    /// The number of fields of this record.
    pub fn len(&self) -> (n: usize)
        ensures
            n == self@.len(),
    {
        self.fields.len()
    }

    /// Bounds-checked positional access: the field at 0-based index `i`,
    /// or `None` when the record has fewer than `i + 1` fields.
    pub fn get(&self, i: usize) -> (r: Option<&Vec<u8>>)
        ensures
            i < self@.len() ==> (r is Some && r->0@ == self@[i as int]),
            i >= self@.len() ==> r is None,
    {
        if i < self.fields.len() {
            Some(&self.fields[i])
        } else {
            None
        }
    }

    /// Appends one field at the end of the record.
    pub fn push_field(&mut self, f: Vec<u8>)
        ensures
            final(self)@ == old(self)@.push(f@),
    {
        self.fields.push(f);
        proof {
            assert(self@ =~= old(self)@.push(f@));
        }
    }
}

/// Rendering of one field inside a dumped record: the field's bytes wrapped
/// in double quotes, so that a field containing the delimiter keeps an
/// unambiguous boundary.
pub open spec fn spec_render_field(f: Seq<u8>) -> Seq<u8> {
    seq![QUOTE] + f + seq![QUOTE]
}

/// Rendering of the fields of a record without the surrounding brackets:
/// each field rendered by `spec_render_field`, separated by `", "`.
pub open spec fn spec_render_inner(fields: Seq<Seq<u8>>) -> Seq<u8>
    decreases fields.len(),
{
    if fields.len() == 0 {
        Seq::empty()
    } else if fields.len() == 1 {
        spec_render_field(fields[0])
    } else {
        spec_render_field(fields[0]) + seq![44u8, 32u8] + spec_render_inner(fields.skip(1))
    }
}

/// Rendering of a whole record: its fields between `[` and `]`, each in
/// double quotes, separated by `", "`. Field order and content are kept.
pub open spec fn spec_render(fields: Seq<Seq<u8>>) -> Seq<u8> {
    seq![91u8] + spec_render_inner(fields) + seq![93u8]
}

/// Appending one more field to a rendered sequence extends the rendering at
/// its end, with a `", "` separator when the sequence was not empty.
pub proof fn lemma_render_inner_push(fields: Seq<Seq<u8>>, f: Seq<u8>)
    ensures
        fields.len() == 0 ==> spec_render_inner(fields.push(f)) == spec_render_field(f),
        fields.len() > 0 ==> spec_render_inner(fields.push(f)) == spec_render_inner(fields)
            + seq![44u8, 32u8] + spec_render_field(f),
    decreases fields.len(),
{
    if fields.len() == 0 {
        assert(fields.push(f)[0] == f);
        assert(fields.push(f).len() == 1);
    } else if fields.len() == 1 {
        let p = fields.push(f);
        assert(p.len() == 2);
        assert(p[0] == fields[0]);
        assert(p.skip(1) =~= seq![f]);
        assert(spec_render_inner(seq![f]) == spec_render_field(f));
        assert(spec_render_inner(p) == spec_render_field(fields[0]) + seq![44u8, 32u8]
            + spec_render_field(f));
    } else {
        let p = fields.push(f);
        assert(p[0] == fields[0]);
        assert(p.skip(1) =~= fields.skip(1).push(f));
        lemma_render_inner_push(fields.skip(1), f);
        assert(spec_render_inner(fields.skip(1).push(f)) == spec_render_inner(fields.skip(1))
            + seq![44u8, 32u8] + spec_render_field(f));
        assert(spec_render_inner(p) == spec_render_field(p[0]) + seq![44u8, 32u8]
            + spec_render_inner(p.skip(1)));
        assert(spec_render_inner(fields) == spec_render_field(fields[0]) + seq![44u8, 32u8]
            + spec_render_inner(fields.skip(1)));
        assert(spec_render_inner(p) =~= spec_render_inner(fields) + seq![44u8, 32u8]
            + spec_render_field(f));
    }
}

impl Record {
    /// Renders the record for full-record output: `["f0", "f1", ...]`.
    pub fn render(&self) -> (out: Vec<u8>)
        ensures
            out@ == spec_render(self@),
    {
        let mut out: Vec<u8> = Vec::new();
        out.push(91u8);
        let mut i: usize = 0;
        proof {
            assert(self@.take(0) =~= Seq::<Seq<u8>>::empty());
            assert(out@ =~= seq![91u8] + spec_render_inner(self@.take(0)));
        }
        while i < self.fields.len()
            invariant
                i <= self.fields.len(),
                out@ == seq![91u8] + spec_render_inner(self@.take(i as int)),
            decreases self.fields.len() - i,
        {
            if i > 0 {
                out.push(44u8);
                out.push(32u8);
            }
            out.push(QUOTE);
            let mut j: usize = 0;
            let ghost mid = out@;
            while j < self.fields[i].len()
                invariant
                    j <= self.fields[i as int]@.len(),
                    i < self.fields@.len(),
                    out@ == mid + self.fields[i as int]@.take(j as int),
                decreases self.fields[i as int]@.len() - j,
            {
                let b = self.fields[i][j];
                out.push(b);
                proof {
                    assert(self.fields[i as int]@.take(j + 1) =~= self.fields[i as int]@.take(
                        j as int).push(b));
                    assert(out@ =~= mid + self.fields[i as int]@.take(j + 1));
                }
                j = j + 1;
            }
            out.push(QUOTE);
            proof {
                let fv = self@[i as int];
                assert(self.fields[i as int]@.take(fv.len() as int) =~= fv);
                lemma_render_inner_push(self@.take(i as int), fv);
                assert(self@.take(i + 1) =~= self@.take(i as int).push(fv));
                assert(out@ =~= seq![91u8] + spec_render_inner(self@.take(i + 1)));
            }
            i = i + 1;
        }
        out.push(93u8);
        proof {
            assert(self@.take(self@.len() as int) =~= self@);
            assert(out@ =~= spec_render(self@));
        }
        out
    }
}

} // verus!
