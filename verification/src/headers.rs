//! A plain model of the request headers: a list of name/value pairs looked
//! up by name without regard to ASCII case, first entry winning.

use vstd::prelude::*;
use crate::text::ci_eq;
use crate::text::str_ci_eq;

verus! {

/// Request headers handed in by the surrounding program.
#[derive(Clone, Debug)]
pub struct Headers {
    pub entries: Vec<(String, String)>,
}

impl View for Headers {
    type V = Seq<(Seq<char>, Seq<char>)>;

    open spec fn view(&self) -> Seq<(Seq<char>, Seq<char>)> {
        Seq::new(self.entries@.len(), |i: int| (self.entries@[i].0@, self.entries@[i].1@))
    }
}

/// The value of the first header whose name matches `name`, ASCII case
/// folded.
pub open spec fn header_lookup(h: Seq<(Seq<char>, Seq<char>)>, name: Seq<char>) -> Option<
    Seq<char>,
>
    decreases h.len(),
{
    if h.len() == 0 {
        None
    } else if ci_eq(h[0].0, name) {
        Some(h[0].1)
    } else {
        header_lookup(h.skip(1), name)
    }
}

/// The first of `names` that is present, tried in order.
pub open spec fn header_first(h: Seq<(Seq<char>, Seq<char>)>, names: Seq<Seq<char>>) -> Option<
    Seq<char>,
>
    decreases names.len(),
{
    if names.len() == 0 {
        None
    } else {
        match header_lookup(h, names[0]) {
            Some(v) => Some(v),
            None => header_first(h, names.skip(1)),
        }
    }
}

/// The views of a list of string slices.
pub open spec fn strs_views(names: Seq<&str>) -> Seq<Seq<char>> {
    Seq::new(names.len(), |i: int| names[i]@)
}

impl Headers {
    /// An empty header list.
    pub fn new() -> (r: Headers)
        ensures
            r@ =~= Seq::<(Seq<char>, Seq<char>)>::empty(),
    {
        Headers { entries: Vec::new() }
    }

    /// Appends one name/value pair.
    pub fn push(&mut self, name: String, value: String)
        ensures
            final(self)@ =~= old(self)@.push((name@, value@)),
    {
        self.entries.push((name, value));
    }

    /// Looks a header up by name, ASCII case folded; the first entry wins.
    pub fn get(&self, name: &str) -> (r: Option<String>)
        ensures
            r is Some <==> header_lookup(self@, name@) is Some,
            r is Some ==> r->0@ == header_lookup(self@, name@)->0,
    {
        let n = self.entries.len();
        let mut i: usize = 0;
        proof {
            assert(self@.skip(0) =~= self@);
        }
        while i < n
            invariant
                n == self.entries@.len(),
                i <= n,
                header_lookup(self@, name@) == header_lookup(self@.skip(i as int), name@),
            decreases n - i,
        {
            let hit = str_ci_eq(self.entries[i].0.as_str(), name);
            proof {
                assert(self@.skip(i as int)[0] == self@[i as int]);
            }
            if hit {
                return Some(self.entries[i].1.clone());
            }
            proof {
                assert(self@.skip(i as int).skip(1) =~= self@.skip(i + 1));
            }
            i = i + 1;
        }
        proof {
            assert(self@.skip(n as int).len() == 0);
        }
        None
    }

    /// Looks up the first present name of `names`, in order.
    pub fn get_first(&self, names: &Vec<&str>) -> (r: Option<String>)
        ensures
            r is Some <==> header_first(self@, strs_views(names@)) is Some,
            r is Some ==> r->0@ == header_first(self@, strs_views(names@))->0,
    {
        let n = names.len();
        let mut i: usize = 0;
        proof {
            assert(strs_views(names@).skip(0) =~= strs_views(names@));
        }
        while i < n
            invariant
                n == names@.len(),
                i <= n,
                header_first(self@, strs_views(names@)) == header_first(
                    self@,
                    strs_views(names@).skip(i as int),
                ),
            decreases n - i,
        {
            let got = self.get(names[i]);
            proof {
                assert(strs_views(names@).skip(i as int)[0] == names@[i as int]@);
            }
            if got.is_some() {
                return got;
            }
            proof {
                assert(strs_views(names@).skip(i as int).skip(1) =~= strs_views(names@).skip(
                    i + 1,
                ));
            }
            i = i + 1;
        }
        proof {
            assert(strs_views(names@).skip(n as int).len() == 0);
        }
        None
    }
}

} // verus!
