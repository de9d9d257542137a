//! References: the four-part image name `kind/id/arch/branch` under which a
//! bundle is published, with `kind` either `app` or `runtime`.

use vstd::prelude::*;

use crate::error::Error;
use crate::text::{
    join_chars, lemma_join_split, lemma_split_from_tokens, lemma_split_join, no_sep, split_chars,
    split_str, str_eq, views_of,
};

verus! {

/// Text is a valid reference when it splits at `/` into exactly four
/// nonempty parts and the first is `app` or `runtime`.
pub open spec fn valid_ref_chars(s: Seq<char>) -> bool {
    let ps = split_chars(s, '/');
    &&& ps.len() == 4
    &&& forall|t: int| 0 <= t < 4 ==> #[trigger] ps[t].len() > 0
    &&& (ps[0] == "app"@ || ps[0] == "runtime"@)
}

/// A parsed reference. The four parts are stored separately; the canonical
/// text is their join with `/`.
#[derive(Debug)]
pub struct Ref {
    pub kind: String,
    pub id: String,
    pub arch: String,
    pub branch: String,
}

impl View for Ref {
    type V = Seq<char>;

    open spec fn view(&self) -> Seq<char> {
        join_chars(self.parts(), '/')
    }
}

impl Ref {
    /// The four parts, kind first.
    pub open spec fn parts(&self) -> Seq<Seq<char>> {
        seq![self.kind@, self.id@, self.arch@, self.branch@]
    }

    /// Every part is nonempty and free of `/`, and the kind names one of
    /// the two image kinds.
    pub open spec fn wf(&self) -> bool {
        &&& forall|t: int| 0 <= t < 4 ==> #[trigger] self.parts()[t].len() > 0
        &&& forall|t: int| 0 <= t < 4 ==> no_sep(#[trigger] self.parts()[t], '/')
        &&& (self.kind@ == "app"@ || self.kind@ == "runtime"@)
    }

    /// Parses reference text.
    pub fn parse(value: &str) -> (r: Result<Ref, Error>)
        ensures
            r is Ok <==> valid_ref_chars(value@),
            r is Ok ==> r->Ok_0.wf() && r->Ok_0@ == value@,
            r is Err ==> r->Err_0 == Error::InvalidRef,
    {
        let mut parts = split_str(value, '/');
        if parts.len() != 4 {
            return Err(Error::InvalidRef);
        }
        let ghost ps = split_chars(value@, '/');
        if parts[0].as_str().is_empty() || parts[1].as_str().is_empty() || parts[2].as_str().is_empty()
            || parts[3].as_str().is_empty() {
            proof {
                assert(!(forall|t: int| 0 <= t < 4 ==> #[trigger] ps[t].len() > 0)) by {
                    if parts@[0]@.len() == 0 {
                        assert(ps[0].len() == 0);
                    } else if parts@[1]@.len() == 0 {
                        assert(ps[1].len() == 0);
                    } else if parts@[2]@.len() == 0 {
                        assert(ps[2].len() == 0);
                    } else {
                        assert(ps[3].len() == 0);
                    }
                }
            }
            return Err(Error::InvalidRef);
        }
        if !str_eq(parts[0].as_str(), "app") && !str_eq(parts[0].as_str(), "runtime") {
            proof {
                assert(ps[0] == parts@[0]@);
            }
            return Err(Error::InvalidRef);
        }
        let branch = parts.pop().unwrap();
        let arch = parts.pop().unwrap();
        let id = parts.pop().unwrap();
        let kind = parts.pop().unwrap();
        let r = Ref { kind, id, arch, branch };
        proof {
            assert(r.parts() =~= ps);
            lemma_split_from_tokens(value@, '/', Seq::empty());
            lemma_join_split(value@, '/');
            assert(forall|t: int| 0 <= t < 4 ==> #[trigger] ps[t].len() > 0);
            assert(valid_ref_chars(value@));
        }
        Ok(r)
    }

    /// Renders the canonical `kind/id/arch/branch` text.
    pub fn serialize(&self) -> (r: String)
        ensures
            r@ == self@,
    {
        let mut s = self.kind.clone();
        s.append("/");
        s.append(self.id.as_str());
        s.append("/");
        s.append(self.arch.as_str());
        s.append("/");
        s.append(self.branch.as_str());
        proof {
            reveal_strlit("/");
            assert("/"@ =~= seq!['/']);
            let ps = self.parts();
            let p1 = seq![self.id@, self.arch@, self.branch@];
            let p2 = seq![self.arch@, self.branch@];
            let p3 = seq![self.branch@];
            assert(ps.drop_first() =~= p1);
            assert(p1.drop_first() =~= p2);
            assert(p2.drop_first() =~= p3);
            assert(join_chars(p3, '/') == self.branch@);
            assert(join_chars(p2, '/') == self.arch@ + seq!['/'] + join_chars(p3, '/'));
            assert(join_chars(p1, '/') == self.id@ + seq!['/'] + join_chars(p2, '/'));
            assert(join_chars(ps, '/') == self.kind@ + seq!['/'] + join_chars(p1, '/'));
            assert(s@ =~= join_chars(ps, '/'));
        }
        s
    }

    /// Duplicates the reference.
    pub fn duplicate(&self) -> (r: Ref)
        ensures
            r == self,
    {
        Ref {
            kind: self.kind.clone(),
            id: self.id.clone(),
            arch: self.arch.clone(),
            branch: self.branch.clone(),
        }
    }

    /// The two references hold the same four parts.
    pub fn same_ref(&self, other: &Ref) -> (r: bool)
        ensures
            r == (self.parts() == other.parts()),
    {
        let r = str_eq(self.kind.as_str(), other.kind.as_str()) && str_eq(
            self.id.as_str(),
            other.id.as_str(),
        ) && str_eq(self.arch.as_str(), other.arch.as_str()) && str_eq(
            self.branch.as_str(),
            other.branch.as_str(),
        );
        proof {
            if r {
                assert(self.parts() =~= other.parts());
            }
        }
        r
    }

    /// Promotes the three-part `id/arch/branch` text a manifest carries to a
    /// full runtime reference.
    pub fn new_runtime(runtime: &str) -> (r: Result<Ref, Error>)
        ensures
            r is Ok <==> valid_ref_chars("runtime/"@ + runtime@),
            r is Ok ==> r->Ok_0.wf() && r->Ok_0@ == "runtime/"@ + runtime@,
            r is Err ==> r->Err_0 == Error::InvalidRef,
    {
        let mut s = String::new();
        s.append("runtime/");
        s.append(runtime);
        proof {
            assert(s@ =~= "runtime/"@ + runtime@);
        }
        Self::parse(s.as_str())
    }

    /// One part by position: kind, id, arch, branch.
    pub fn part(&self, n: usize) -> (r: &str)
        requires
            n < 4,
        ensures
            r@ == self.parts()[n as int],
    {
        if n == 0 {
            self.kind.as_str()
        } else if n == 1 {
            self.id.as_str()
        } else if n == 2 {
            self.arch.as_str()
        } else {
            self.branch.as_str()
        }
    }

    /// The remote (none is recorded), then the four parts.
    pub fn get_parts(&self) -> (r: (Option<&str>, &str, &str, &str, &str))
        ensures
            r.0 is None,
            r.1@ == self.kind@,
            r.2@ == self.id@,
            r.3@ == self.arch@,
            r.4@ == self.branch@,
    {
        (
            None,
            self.kind.as_str(),
            self.id.as_str(),
            self.arch.as_str(),
            self.branch.as_str(),
        )
    }

    /// The remote a reference names; none is ever recorded.
    pub fn get_remote(&self) -> (r: Option<&str>)
        ensures
            r is None,
    {
        None
    }

    pub fn is_runtime(&self) -> (r: bool)
        ensures
            r == (self.kind@ == "runtime"@),
    {
        str_eq(self.kind.as_str(), "runtime")
    }

    pub fn is_app(&self) -> (r: bool)
        ensures
            r == (self.kind@ == "app"@),
    {
        str_eq(self.kind.as_str(), "app")
    }

    pub fn get_id(&self) -> (r: &str)
        ensures
            r@ == self.id@,
    {
        self.id.as_str()
    }

    pub fn get_arch(&self) -> (r: &str)
        ensures
            r@ == self.arch@,
    {
        self.arch.as_str()
    }

    pub fn get_branch(&self) -> (r: &str)
        ensures
            r@ == self.branch@,
    {
        self.branch.as_str()
    }
}

/// The text is a valid reference.
pub fn valid_ref(value: &str) -> (r: bool)
    ensures
        r == valid_ref_chars(value@),
{
    match Ref::parse(value) {
        Ok(_) => true,
        Err(_) => false,
    }
}

/// A well-formed reference prints as valid text that splits back into the
/// same four parts, so parsing the canonical text restores the reference.
pub proof fn lemma_parse_serialize_roundtrip(r: &Ref)
    requires
        r.wf(),
    ensures
        valid_ref_chars(r@),
        split_chars(r@, '/') == r.parts(),
{
    lemma_split_join(r.parts(), '/');
    reveal_strlit("app");
    reveal_strlit("runtime");
}

/// The canonical text determines the parts: two well-formed references with
/// the same text are the same reference.
pub proof fn lemma_view_determines_parts(a: &Ref, b: &Ref)
    requires
        a.wf(),
        b.wf(),
        a@ == b@,
    ensures
        a.parts() == b.parts(),
{
    lemma_parse_serialize_roundtrip(a);
    lemma_parse_serialize_roundtrip(b);
}

} // verus!
