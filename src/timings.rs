//! The `Server-Timing` header value, built up entry by entry.
use vstd::prelude::*;

verus! {

#[derive(Clone, Debug)]
pub struct ServerTimings {
    pub value: String,
}

/// The concatenation of some texts.
pub open spec fn concat(items: Seq<Seq<char>>) -> Seq<char>
    decreases items.len(),
{
    if items.len() == 0 {
        Seq::empty()
    } else {
        concat(items.drop_last()) + items.last()
    }
}

/// `value` with `added` appended, separated by `, ` where both are non-empty.
pub open spec fn joined(value: Seq<char>, added: Seq<char>) -> Seq<char> {
    if value.len() > 0 && added.len() > 0 {
        value + ", "@ + added
    } else {
        value + added
    }
}

impl ServerTimings {
    pub fn new() -> (r: Self)
        ensures
            r.value@ == Seq::<char>::empty(),
    {
        ServerTimings { value: String::new() }
    }

    /// Adds one entry, after `, ` where there are entries already.
    pub fn push(&mut self, entry: &str)
        ensures
            final(self).value@ == if old(self).value@.len() > 0 {
                old(self).value@ + ", "@ + entry@
            } else {
                entry@
            },
    {
        if self.value.as_str().unicode_len() > 0 {
            self.value.append(", ");
        }
        self.value.append(entry);
    }

    /// Adds one entry given in pieces, after `, ` where there are entries
    /// already; no pieces add nothing.
    pub fn push_iter_nodelim(&mut self, pieces: &Vec<&str>)
        ensures
            final(self).value@ == if pieces@.len() > 0 && old(self).value@.len() > 0 {
                old(self).value@ + ", "@ + concat(pieces@.map_values(|p: &str| p@))
            } else {
                old(self).value@ + concat(pieces@.map_values(|p: &str| p@))
            },
    {
        let ghost start = self.value@;
        let ghost views = pieces@.map_values(|p: &str| p@);
        let ghost lead = if pieces@.len() > 0 && start.len() > 0 {
            start + ", "@
        } else {
            start
        };
        let mut added_delim = false;
        let mut i: usize = 0;
        assert(views.subrange(0, 0) =~= Seq::<Seq<char>>::empty());
        assert(start + Seq::<char>::empty() =~= start);
        while i < pieces.len()
            invariant
                i <= pieces@.len(),
                views == pieces@.map_values(|p: &str| p@),
                lead == (if pieces@.len() > 0 && start.len() > 0 { start + ", "@ } else { start }),
                added_delim == (i > 0),
                i == 0 ==> self.value@ == start,
                i > 0 ==> self.value@ == lead + concat(views.subrange(0, i as int)),
            decreases pieces.len() - i,
        {
            assert(views.subrange(0, i + 1).drop_last() =~= views.subrange(0, i as int));
            assert(views.subrange(0, i + 1).last() == pieces@[i as int]@);
            assert(concat(views.subrange(0, i + 1)) == concat(views.subrange(0, i as int)) + pieces@[i as int]@);
            assert(i == 0 ==> concat(views.subrange(0, i as int)) =~= Seq::<char>::empty());
            if !added_delim && self.value.as_str().unicode_len() > 0 {
                self.value.append(", ");
            }
            added_delim = true;
            self.value.append(pieces[i]);
            assert(self.value@ =~= lead + concat(views.subrange(0, i + 1)));
            i += 1;
        }
        if pieces.len() > 0 {
            assert(views.subrange(0, i as int) =~= views);
            assert(self.value@ =~= lead + concat(views));
        } else {
            assert(concat(views) =~= Seq::<char>::empty());
            assert(self.value@ =~= start + concat(views));
        }
    }

    /// Adds the entries of `other`.
    pub fn append(&mut self, other: &ServerTimings)
        ensures
            final(self).value@ == joined(old(self).value@, other.value@),
    {
        if self.value.as_str().unicode_len() > 0 && other.value.as_str().unicode_len() > 0 {
            self.value.append(", ");
        }
        self.value.append(other.value.as_str());
    }
}

} // verus!
