//! Path fragments, internal paths and link targets.

use vstd::prelude::*;

use crate::text::push_char;

verus! {

/// One non-empty segment of an internal path, used as a document tree key.
#[derive(Debug, PartialEq, Eq, Hash)]
pub struct Fragment {
    text: String,
}

impl View for Fragment {
    type V = Seq<char>;

    closed spec fn view(&self) -> Seq<char> {
        self.text@
    }
}

impl Fragment {
    /// A fragment is never empty.
    pub open spec fn wf(&self) -> bool {
        self@.len() > 0
    }

    /// Wraps one non-empty path segment.
    pub fn new(text: String) -> (r: Fragment)
        requires
            text@.len() > 0,
        ensures
            r@ == text@,
    {
        Fragment { text }
    }

    /// The segment's text.
    pub fn as_str(&self) -> (r: &str)
        ensures
            r@ == self@,
    {
        self.text.as_str()
    }
}

impl Clone for Fragment {
    fn clone(&self) -> (r: Self)
        ensures
            r@ == self@,
    {
        Fragment { text: self.text.clone() }
    }
}

/// An ordered sequence of fragments identifying a document tree node; the
/// empty sequence is the root.
#[derive(Debug, PartialEq, Eq, Hash)]
pub struct InternalPath {
    pub fragments: Vec<Fragment>,
}

impl View for InternalPath {
    type V = Seq<Seq<char>>;

    open spec fn view(&self) -> Seq<Seq<char>> {
        Seq::new(self.fragments@.len(), |i: int| self.fragments@[i]@)
    }
}

/// Every segment of a path is non-empty.
pub open spec fn path_wf(p: Seq<Seq<char>>) -> bool {
    forall|i: int| 0 <= i < p.len() ==> #[trigger] p[i].len() > 0
}

/// Fragments joined by `/`, as written in a generated file path.
pub open spec fn spec_join(p: Seq<Seq<char>>) -> Seq<char>
    decreases p.len(),
{
    if p.len() == 0 {
        Seq::empty()
    } else if p.len() == 1 {
        p[0]
    } else {
        p[0] + seq!['/'] + spec_join(p.skip(1))
    }
}

/// Joining one more fragment appends a separator and the fragment.
proof fn lemma_join_snoc(p: Seq<Seq<char>>, f: Seq<char>)
    ensures
        spec_join(p.push(f)) == if p.len() == 0 {
            f
        } else {
            spec_join(p) + seq!['/'] + f
        },
    decreases p.len(),
{
    if p.len() == 0 {
        assert(p.push(f).len() == 1);
        assert(p.push(f)[0] == f);
    } else {
        assert(p.push(f).skip(1) =~= p.skip(1).push(f));
        lemma_join_snoc(p.skip(1), f);
        if p.len() == 1 {
            assert(spec_join(p.push(f)) == p[0] + seq!['/'] + spec_join(p.skip(1).push(f)));
            assert(spec_join(p.skip(1).push(f)) == f);
            assert(spec_join(p) == p[0]);
        } else {
            assert(spec_join(p) + seq!['/'] + f =~= p[0] + seq!['/'] + (spec_join(p.skip(1))
                + seq!['/'] + f));
        }
    }
}

impl InternalPath {
    pub open spec fn wf(&self) -> bool {
        path_wf(self@)
    }

    /// The root path: no fragments.
    pub fn root() -> (r: InternalPath)
        ensures
            r@ =~= Seq::<Seq<char>>::empty(),
    {
        InternalPath { fragments: Vec::new() }
    }

    /// Appends one fragment at the end.
    pub fn push(&mut self, f: Fragment)
        ensures
            final(self)@ =~= old(self)@.push(f@),
    {
        self.fragments.push(f);
    }

    /// The path's segments joined by `/`, the relative file path the page
    /// is written to.
    pub fn to_fs_path(&self) -> (r: String)
        ensures
            r@ == spec_join(self@),
    {
        let mut out = String::new();
        let mut i: usize = 0;
        let n = self.fragments.len();
        while i < n
            invariant
                n == self.fragments@.len(),
                i <= n,
                out@ == spec_join(self@.take(i as int)),
            decreases n - i,
        {
            if i > 0 {
                push_char(&mut out, '/');
            }
            out.append(self.fragments[i].as_str());
            proof {
                lemma_join_snoc(self@.take(i as int), self@[i as int]);
                assert(self@.take(i + 1 as int) =~= self@.take(i as int).push(self@[i as int]));
            }
            i = i + 1;
        }
        proof {
            assert(self@.take(n as int) =~= self@);
        }
        out
    }
}

impl Clone for InternalPath {
    fn clone(&self) -> (r: Self)
        ensures
            r@ == self@,
    {
        let mut fragments: Vec<Fragment> = Vec::new();
        let mut i: usize = 0;
        let n = self.fragments.len();
        while i < n
            invariant
                n == self.fragments@.len(),
                i <= n,
                fragments@.len() == i,
                forall|j: int| 0 <= j < i ==> fragments@[j]@ == self.fragments@[j]@,
            decreases n - i,
        {
            fragments.push(self.fragments[i].clone());
            i = i + 1;
        }
        let r = InternalPath { fragments };
        proof {
            assert(r@ =~= self@);
        }
        r
    }
}

/// Splits `s` on `/`, dropping empty pieces; `cur` is the segment read so
/// far.
pub open spec fn spec_split_go(s: Seq<char>, cur: Seq<char>) -> Seq<Seq<char>>
    decreases s.len(),
{
    if s.len() == 0 {
        if cur.len() == 0 {
            Seq::empty()
        } else {
            seq![cur]
        }
    } else if s[0] == '/' {
        (if cur.len() == 0 {
            Seq::<Seq<char>>::empty()
        } else {
            seq![cur]
        }) + spec_split_go(s.skip(1), Seq::empty())
    } else {
        spec_split_go(s.skip(1), cur.push(s[0]))
    }
}

/// The non-empty segments of `s` between `/` separators, in order.
pub open spec fn spec_split_path(s: Seq<char>) -> Seq<Seq<char>> {
    spec_split_go(s, Seq::empty())
}

/// A reference to another page of the tree or to an external URL.
#[derive(Debug, PartialEq, Eq)]
pub enum Location {
    /// A page of this site, addressed by internal path.
    Internal(InternalPath),
    /// An external absolute link.
    Url(String),
}

impl Location {
    pub open spec fn wf(&self) -> bool {
        match self {
            Location::Internal(p) => p.wf(),
            Location::Url(_) => true,
        }
    }

    /// An internal location read from a path literal: segments between `/`,
    /// empty segments dropped.
    pub fn internal(s: &str) -> (r: Location)
        ensures
            r matches Location::Internal(p) && p@ == spec_split_path(s@),
            r.wf(),
    {
        let n = s.unicode_len();
        let mut fragments: Vec<Fragment> = Vec::new();
        let mut cur = String::new();
        let mut i: usize = 0;
        proof {
            assert(cur@ =~= Seq::<char>::empty());
            assert(s@.skip(0) =~= s@);
            assert(Seq::new(fragments@.len(), |k: int| fragments@[k]@) + spec_split_go(s@, cur@)
                =~= spec_split_go(s@, Seq::empty()));
        }
        while i < n
            invariant
                n == s@.len(),
                i <= n,
                forall|j: int| 0 <= j < fragments@.len() ==> #[trigger] fragments@[j]@.len() > 0,
                Seq::new(fragments@.len(), |k: int| fragments@[k]@) + spec_split_go(
                    s@.skip(i as int),
                    cur@,
                ) =~= spec_split_path(s@),
            decreases n - i,
        {
            let c = s.get_char(i);
            proof {
                assert(s@.skip(i as int)[0] == s@[i as int]);
                assert(s@.skip(i as int).skip(1) =~= s@.skip(i + 1 as int));
            }
            if c == '/' {
                if cur.unicode_len() > 0 {
                    let ghost before = fragments@;
                    fragments.push(Fragment::new(cur));
                    proof {
                        assert(Seq::new(fragments@.len(), |k: int| fragments@[k]@) =~= Seq::new(
                            before.len(),
                            |k: int| before[k]@,
                        ).push(before.push(fragments@[before.len() as int]).last()@));
                    }
                    cur = String::new();
                } else {
                    proof {
                        assert(cur@ =~= Seq::<char>::empty());
                    }
                }
                proof {
                    assert((if cur@.len() == 0 {
                        Seq::<Seq<char>>::empty()
                    } else {
                        seq![cur@]
                    }) =~= Seq::<Seq<char>>::empty());
                }
            } else {
                push_char(&mut cur, c);
            }
            i = i + 1;
        }
        proof {
            assert(s@.skip(n as int) =~= Seq::<char>::empty());
        }
        if cur.unicode_len() > 0 {
            let ghost before = fragments@;
            fragments.push(Fragment::new(cur));
            proof {
                assert(Seq::new(fragments@.len(), |k: int| fragments@[k]@) =~= Seq::new(
                    before.len(),
                    |k: int| before[k]@,
                ).push(fragments@.last()@));
            }
        } else {
            proof {
                assert(spec_split_go(s@.skip(n as int), cur@) =~= Seq::<Seq<char>>::empty());
                assert(Seq::new(fragments@.len(), |k: int| fragments@[k]@) + Seq::<Seq<
                    char,
                >>::empty() =~= Seq::new(fragments@.len(), |k: int| fragments@[k]@));
            }
        }
        let r = Location::Internal(InternalPath { fragments });
        proof {
            assert(r->Internal_0@ =~= spec_split_path(s@));
        }
        r
    }

    /// An external URL location.
    pub fn url(s: &str) -> (r: Location)
        ensures
            r matches Location::Url(u) && u@ == s@,
    {
        Location::Url(String::from_str(s))
    }
}

} // verus!
