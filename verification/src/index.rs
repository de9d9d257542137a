//! The registry index: the table keyed by reference that the remote's
//! static index yields, and the listing, searching and describing of it.
//! The launcher fetches and decodes the response; the table logic is here.

use vstd::prelude::*;

use crate::error::Error;
use crate::reference::{lemma_view_determines_parts, valid_ref_chars, Ref};
use crate::text::{contains_seq, contains_str, str_eq, views_of};

verus! {

/// What `str::to_lowercase` returns for given characters; the result
/// depends on the characters alone.
pub uninterp spec fn lower_of(s: Seq<char>) -> Seq<char>;

/// Relies on str::to_lowercase: the lowercase mapping of the characters,
/// depending on the characters alone; empty text stays empty.
#[verifier::external_body]
fn to_lower(s: &str) -> (r: String)
    ensures
        r@ == lower_of(s@),
        s@.len() == 0 ==> r@.len() == 0,
{
    s.to_lowercase()
}

/// Whether an already-lowercased reference text matches a lowercased
/// search term.
pub fn matches_folded(reference_lower: &str, term_lower: &str) -> (r: bool)
    ensures
        r == contains_seq(reference_lower@, term_lower@),
{
    contains_str(reference_lower, term_lower)
}

/// The OCI architecture name for a machine name.
pub fn oci_arch(machine: &str) -> (r: String)
    ensures
        machine@ == "aarch64"@ ==> r@ == "arm64"@,
        machine@ == "x86"@ ==> r@ == "386"@,
        machine@ == "x86_64"@ ==> r@ == "amd64"@,
        machine@ != "aarch64"@ && machine@ != "x86"@ && machine@ != "x86_64"@ ==> r@ == machine@,
{
    proof {
        reveal_strlit("aarch64");
        reveal_strlit("x86");
        reveal_strlit("x86_64");
        assert("aarch64"@.len() == 7);
        assert("x86"@.len() == 3);
        assert("x86_64"@.len() == 6);
    }
    if str_eq(machine, "aarch64") {
        "arm64".to_owned()
    } else if str_eq(machine, "x86") {
        "386".to_owned()
    } else if str_eq(machine, "x86_64") {
        "amd64".to_owned()
    } else {
        machine.to_owned()
    }
}

/// One image of the decoded index response.
#[derive(Debug)]
pub struct ImageRecord {
    pub digest: String,
    pub ref_text: String,
    pub metadata: String,
}

/// One name of the decoded index response, with its images.
#[derive(Debug)]
pub struct NameRecord {
    pub name: String,
    pub images: Vec<ImageRecord>,
}

/// One table row: the reference, the `name@digest` image address, and the
/// raw manifest text.
#[derive(Debug)]
pub struct IndexEntry {
    pub reference: Ref,
    pub image: String,
    pub metadata: String,
}

/// The index table keyed by reference.
#[derive(Debug)]
pub struct Index {
    pub entries: Vec<IndexEntry>,
}

impl Index {
    /// References are well-formed and no two rows share one.
    pub open spec fn wf(&self) -> bool {
        &&& forall|i: int| 0 <= i < self.entries@.len() ==> (#[trigger] self.entries@[i]).reference.wf()
        &&& forall|i: int, j: int|
            0 <= i < j < self.entries@.len() ==> (#[trigger] self.entries@[i]).reference@ != (
            #[trigger] self.entries@[j]).reference@
    }

    /// The rows as a map from canonical reference text to image address and
    /// manifest text.
    pub open spec fn as_map(&self) -> Map<Seq<char>, (Seq<char>, Seq<char>)> {
        entry_map(self.entries@)
    }
}

pub open spec fn entry_map(entries: Seq<IndexEntry>) -> Map<Seq<char>, (Seq<char>, Seq<char>)>
    decreases entries.len(),
{
    if entries.len() == 0 {
        Map::empty()
    } else {
        entry_map(entries.drop_last()).insert(
            entries.last().reference@,
            (entries.last().image@, entries.last().metadata@),
        )
    }
}

proof fn lemma_entry_map_index(entries: Seq<IndexEntry>, i: int)
    requires
        0 <= i < entries.len(),
        forall|a: int, b: int|
            0 <= a < b < entries.len() ==> (#[trigger] entries[a]).reference@ != (
            #[trigger] entries[b]).reference@,
    ensures
        entry_map(entries).dom().contains(entries[i].reference@),
        entry_map(entries)[entries[i].reference@] == (entries[i].image@, entries[i].metadata@),
    decreases entries.len(),
{
    if i < entries.len() - 1 {
        assert(entries.drop_last()[i] == entries[i]);
        assert forall|a: int, b: int| 0 <= a < b < entries.drop_last().len() implies (
        #[trigger] entries.drop_last()[a]).reference@ != (
        #[trigger] entries.drop_last()[b]).reference@ by {
            assert(entries.drop_last()[a] == entries[a]);
            assert(entries.drop_last()[b] == entries[b]);
        }
        lemma_entry_map_index(entries.drop_last(), i);
        assert(entries[i].reference@ != entries.last().reference@) by {
            assert(entries.last() == entries[entries.len() - 1]);
        }
    }
}

proof fn lemma_entry_map_absent(entries: Seq<IndexEntry>, key: Seq<char>)
    requires
        forall|i: int| 0 <= i < entries.len() ==> (#[trigger] entries[i]).reference@ != key,
    ensures
        !entry_map(entries).dom().contains(key),
    decreases entries.len(),
{
    if entries.len() > 0 {
        assert forall|i: int| 0 <= i < entries.drop_last().len() implies (
        #[trigger] entries.drop_last()[i]).reference@ != key by {
            assert(entries.drop_last()[i] == entries[i]);
        }
        lemma_entry_map_absent(entries.drop_last(), key);
        assert(entries.last() == entries[entries.len() - 1]);
    }
}

impl Index {
    pub fn new() -> (r: Index)
        ensures
            r.wf(),
            r.as_map() == Map::<Seq<char>, (Seq<char>, Seq<char>)>::empty(),
            r.entries@.len() == 0,
    {
        let r = Index { entries: Vec::new() };
        proof {
            assert(r.as_map() =~= Map::<Seq<char>, (Seq<char>, Seq<char>)>::empty());
        }
        r
    }

    /// The position of the row for a reference, by canonical text.
    #[verifier::loop_isolation(false)]
    fn position(&self, reference: &Ref) -> (r: Option<usize>)
        requires
            self.wf(),
            reference.wf(),
        ensures
            r matches Some(i) ==> i < self.entries@.len() && self.entries@[i as int].reference@
                == reference@,
            r is None ==> !self.as_map().dom().contains(reference@),
    {
        let mut i: usize = 0;
        while i < self.entries.len()
            invariant
                i <= self.entries@.len(),
                forall|j: int| 0 <= j < i ==> (#[trigger] self.entries@[j]).reference@
                    != reference@,
            decreases self.entries@.len() - i,
        {
            if self.entries[i].reference.same_ref(reference) {
                proof {
                    lemma_view_determines_parts(&self.entries@[i as int].reference, reference);
                    assert(self.entries@[i as int].reference@ == reference@);
                }
                return Some(i);
            }
            proof {
                if self.entries@[i as int].reference@ == reference@ {
                    lemma_view_determines_parts(&self.entries@[i as int].reference, reference);
                }
            }
            i += 1;
        }
        proof {
            lemma_entry_map_absent(self.entries@, reference@);
        }
        None
    }

    /// Puts one row, replacing the row of the same reference if present.
    #[verifier::loop_isolation(false)]
    pub fn put(&mut self, reference: Ref, image: String, metadata: String)
        requires
            old(self).wf(),
            reference.wf(),
        ensures
            final(self).wf(),
            final(self).as_map() == old(self).as_map().insert(reference@, (image@, metadata@)),
    {
        match self.position(&reference) {
            Some(i) => {
                let ghost before = self.entries@;
                let _ = self.entries.remove(i);
                proof {
                    let after = before.remove(i as int);
                    assert forall|a: int, b: int| 0 <= a < b < after.len() implies (
                    #[trigger] after[a]).reference@ != (#[trigger] after[b]).reference@ by {
                        if a < i && b < i {
                            assert(after[a] == before[a] && after[b] == before[b]);
                        } else if a < i {
                            assert(after[a] == before[a] && after[b] == before[b + 1]);
                        } else {
                            assert(after[a] == before[a + 1] && after[b] == before[b + 1]);
                        }
                    }
                    assert forall|a: int| 0 <= a < after.len() implies (
                    #[trigger] after[a]).reference.wf() by {
                        if a < i {
                            assert(after[a] == before[a]);
                        } else {
                            assert(after[a] == before[a + 1]);
                        }
                    }
                    assert forall|a: int| 0 <= a < after.len() implies (#[trigger] after[a]).reference@
                        != reference@ by {
                        if a < i {
                            assert(after[a] == before[a]);
                        } else {
                            assert(after[a] == before[a + 1]);
                        }
                    }
                    lemma_map_remove_row(before, i as int, reference@);
                }
                let ghost mid = self.entries@;
                self.entries.push(IndexEntry { reference, image, metadata });
                proof {
                    assert(self.entries@.drop_last() =~= mid);
                    assert(mid == before.remove(i as int));
                    assert(self.entries@.last().reference@ == reference@);
                    assert(self.as_map() == entry_map(mid).insert(
                        self.entries@.last().reference@,
                        (self.entries@.last().image@, self.entries@.last().metadata@),
                    ));
                    assert forall|k: Seq<char>| k != reference@ implies (entry_map(
                        mid,
                    ).dom().contains(k) == entry_map(before).dom().contains(k) && (entry_map(
                        before,
                    ).dom().contains(k) ==> entry_map(mid)[k] == entry_map(before)[k])) by {
                        lemma_map_remove_row(before, i as int, reference@);
                    }
                    assert(self.as_map() =~= entry_map(before).insert(
                        reference@,
                        (image@, metadata@),
                    ));
                    assert forall|a: int, b: int| 0 <= a < b < self.entries@.len() implies (
                    #[trigger] self.entries@[a]).reference@ != (
                    #[trigger] self.entries@[b]).reference@ by {
                        if b < mid.len() {
                            assert(self.entries@[a] == mid[a] && self.entries@[b] == mid[b]);
                        } else {
                            assert(self.entries@[a] == mid[a]);
                        }
                    }
                    assert forall|a: int| 0 <= a < self.entries@.len() implies (
                    #[trigger] self.entries@[a]).reference.wf() by {
                        if a < mid.len() {
                            assert(self.entries@[a] == mid[a]);
                        }
                    }
                }
            },
            None => {
                let ghost before = self.entries@;
                self.entries.push(IndexEntry { reference, image, metadata });
                proof {
                    assert(self.entries@.drop_last() =~= before);
                    assert(self.as_map() =~= entry_map(before).insert(
                        reference@,
                        (image@, metadata@),
                    ));
                    assert forall|a: int, b: int| 0 <= a < b < self.entries@.len() implies (
                    #[trigger] self.entries@[a]).reference@ != (
                    #[trigger] self.entries@[b]).reference@ by {
                        if b < before.len() {
                            assert(self.entries@[a] == before[a] && self.entries@[b] == before[b]);
                        } else {
                            assert(self.entries@[a] == before[a]);
                            lemma_entry_map_index(before, a);
                        }
                    }
                    assert forall|a: int| 0 <= a < self.entries@.len() implies (
                    #[trigger] self.entries@[a]).reference.wf() by {
                        if a < before.len() {
                            assert(self.entries@[a] == before[a]);
                        }
                    }
                }
            },
        }
    }

    /// The image address and manifest text of a reference.
    pub fn get(&self, reference: &Ref) -> (r: Option<(&String, &String)>)
        requires
            self.wf(),
            reference.wf(),
        ensures
            r matches Some(v) ==> self.as_map().dom().contains(reference@) && (v.0@, v.1@)
                == self.as_map()[reference@],
            r is None ==> !self.as_map().dom().contains(reference@),
    {
        match self.position(reference) {
            Some(i) => {
                proof {
                    lemma_entry_map_index(self.entries@, i as int);
                }
                Some((&self.entries[i].image, &self.entries[i].metadata))
            },
            None => None,
        }
    }

    /// Every reference's canonical text, one per row, in table order.
    #[verifier::loop_isolation(false)]
    pub fn list(&self) -> (r: Vec<String>)
        ensures
            views_of(r@) == self.entries@.map_values(|e: IndexEntry| e.reference@),
    {
        let mut out: Vec<String> = Vec::new();
        let mut i: usize = 0;
        proof {
            assert(views_of(out@) =~= self.entries@.map_values(|e: IndexEntry| e.reference@).take(
                0,
            ));
        }
        while i < self.entries.len()
            invariant
                i <= self.entries@.len(),
                views_of(out@) == self.entries@.map_values(|e: IndexEntry| e.reference@).take(
                    i as int,
                ),
            decreases self.entries@.len() - i,
        {
            let text = self.entries[i].reference.serialize();
            proof {
                let vs = self.entries@.map_values(|e: IndexEntry| e.reference@);
                assert(views_of(out@.push(text)) =~= views_of(out@).push(text@));
                assert(vs.take(i + 1) =~= vs.take(i as int).push(vs[i as int]));
            }
            out.push(text);
            i += 1;
        }
        proof {
            let vs = self.entries@.map_values(|e: IndexEntry| e.reference@);
            assert(vs.take(self.entries@.len() as int) =~= vs);
        }
        out
    }

    /// The rows whose reference text, lowercased, holds the lowercased
    /// term, in table order.
    #[verifier::loop_isolation(false)]
    pub fn search(&self, term: &str) -> (r: Vec<String>)
        ensures
            views_of(r@) == search_filter(self.entries@, term@),
    {
        let needle = to_lower(term);
        let mut out: Vec<String> = Vec::new();
        let mut i: usize = 0;
        proof {
            assert(self.entries@.skip(0) =~= self.entries@);
            assert(views_of(out@) + search_filter(self.entries@, term@) =~= search_filter(
                self.entries@,
                term@,
            ));
        }
        while i < self.entries.len()
            invariant
                needle@ == lower_of(term@),
                i <= self.entries@.len(),
                search_filter(self.entries@, term@) == views_of(out@) + search_filter(
                    self.entries@.skip(i as int),
                    term@,
                ),
            decreases self.entries@.len() - i,
        {
            proof {
                assert(self.entries@.skip(i as int)[0] == self.entries@[i as int]);
                assert(self.entries@.skip(i as int).drop_first() =~= self.entries@.skip(i + 1));
            }
            let text = self.entries[i].reference.serialize();
            let hay = to_lower(text.as_str());
            if matches_folded(hay.as_str(), needle.as_str()) {
                proof {
                    assert(views_of(out@.push(text)) =~= views_of(out@).push(text@));
                    assert(views_of(out@).push(text@) + search_filter(
                        self.entries@.skip(i + 1),
                        term@,
                    ) =~= views_of(out@) + (seq![text@] + search_filter(
                        self.entries@.skip(i + 1),
                        term@,
                    )));
                }
                out.push(text);
            }
            i += 1;
        }
        proof {
            assert(self.entries@.skip(self.entries@.len() as int) =~= Seq::<IndexEntry>::empty());
            assert(views_of(out@) + Seq::<Seq<char>>::empty() =~= views_of(out@));
        }
        out
    }
}

/// The reference texts of the rows matching a term, lowercase-folded.
pub open spec fn search_filter(entries: Seq<IndexEntry>, term: Seq<char>) -> Seq<Seq<char>>
    decreases entries.len(),
{
    if entries.len() == 0 {
        Seq::empty()
    } else {
        let rest = search_filter(entries.drop_first(), term);
        if contains_seq(lower_of(entries[0].reference@), lower_of(term)) {
            seq![entries[0].reference@] + rest
        } else {
            rest
        }
    }
}

proof fn lemma_map_remove_row(entries: Seq<IndexEntry>, i: int, key: Seq<char>)
    requires
        0 <= i < entries.len(),
        forall|a: int, b: int|
            0 <= a < b < entries.len() ==> (#[trigger] entries[a]).reference@ != (
            #[trigger] entries[b]).reference@,
        entries[i].reference@ == key,
    ensures
        forall|k: Seq<char>|
            #![trigger entry_map(entries.remove(i)).dom().contains(k)]
            k != key ==> (entry_map(entries.remove(i)).dom().contains(k) == entry_map(
                entries,
            ).dom().contains(k) && (entry_map(entries).dom().contains(k) ==> entry_map(
                entries.remove(i),
            )[k] == entry_map(entries)[k])),
    decreases entries.len(),
{
    let after = entries.remove(i);
    if i == entries.len() - 1 {
        assert(after =~= entries.drop_last());
        assert forall|k: Seq<char>|
            #![trigger entry_map(entries.remove(i)).dom().contains(k)]
            k != key implies (entry_map(after).dom().contains(k) == entry_map(
            entries,
        ).dom().contains(k) && (entry_map(entries).dom().contains(k) ==> entry_map(after)[k]
            == entry_map(entries)[k])) by {
            assert(entries.last() == entries[i]);
        }
    } else {
        assert(after.last() == entries.last()) by {
            assert(after[after.len() - 1] == entries[entries.len() - 1]);
        }
        assert(after.drop_last() =~= entries.drop_last().remove(i));
        assert forall|a: int, b: int| 0 <= a < b < entries.drop_last().len() implies (
        #[trigger] entries.drop_last()[a]).reference@ != (
        #[trigger] entries.drop_last()[b]).reference@ by {
            assert(entries.drop_last()[a] == entries[a]);
            assert(entries.drop_last()[b] == entries[b]);
        }
        assert(entries.drop_last()[i] == entries[i]);
        lemma_map_remove_row(entries.drop_last(), i, key);
        assert forall|k: Seq<char>|
            #![trigger entry_map(entries.remove(i)).dom().contains(k)]
            k != key implies (entry_map(after).dom().contains(k) == entry_map(
            entries,
        ).dom().contains(k) && (entry_map(entries).dom().contains(k) ==> entry_map(after)[k]
            == entry_map(entries)[k])) by {
            lemma_map_remove_row(entries.drop_last(), i, key);
            assert(entry_map(after) == entry_map(after.drop_last()).insert(
                after.last().reference@,
                (after.last().image@, after.last().metadata@),
            ));
            assert(entry_map(entries) == entry_map(entries.drop_last()).insert(
                entries.last().reference@,
                (entries.last().image@, entries.last().metadata@),
            ));
            if k != after.last().reference@ {
                assert(entry_map(after.drop_last()).dom().contains(k) == entry_map(
                    entries.drop_last(),
                ).dom().contains(k));
                assert(entry_map(after).dom().contains(k) == entry_map(
                    after.drop_last(),
                ).dom().contains(k));
                assert(entry_map(entries).dom().contains(k) == entry_map(
                    entries.drop_last(),
                ).dom().contains(k));
            }
        }
    }
}

/// One name's images folded into the table: each image keyed by its
/// reference text, addressed as `name@digest`, carrying its manifest text.
pub open spec fn images_fold(
    m: Map<Seq<char>, (Seq<char>, Seq<char>)>,
    name: Seq<char>,
    imgs: Seq<ImageRecord>,
) -> Map<Seq<char>, (Seq<char>, Seq<char>)>
    decreases imgs.len(),
{
    if imgs.len() == 0 {
        m
    } else {
        images_fold(m, name, imgs.drop_last()).insert(
            imgs.last().ref_text@,
            (name + "@"@ + imgs.last().digest@, imgs.last().metadata@),
        )
    }
}

/// The whole response folded into the table, names in order.
pub open spec fn records_fold(
    m: Map<Seq<char>, (Seq<char>, Seq<char>)>,
    records: Seq<NameRecord>,
) -> Map<Seq<char>, (Seq<char>, Seq<char>)>
    decreases records.len(),
{
    if records.len() == 0 {
        m
    } else {
        images_fold(
            records_fold(m, records.drop_last()),
            records.last().name@,
            records.last().images@,
        )
    }
}

/// Builds the table from the decoded response: each image's reference is
/// parsed, its address is `name@digest`, and a later row for the same
/// reference replaces an earlier one.
#[verifier::loop_isolation(false)]
pub fn build_index(records: &Vec<NameRecord>) -> (r: Result<Index, Error>)
    ensures
        r matches Ok(idx) ==> idx.wf() && idx.as_map() == records_fold(
            Map::<Seq<char>, (Seq<char>, Seq<char>)>::empty(),
            records@,
        ),
        r is Ok <==> (forall|a: int, b: int|
            0 <= a < records@.len() && 0 <= b < records@[a].images@.len() ==> valid_ref_chars(
                (#[trigger] records@[a].images@[b]).ref_text@,
            )),
        r is Err ==> r->Err_0 == Error::InvalidRef,
{
    let ghost m0 = Map::<Seq<char>, (Seq<char>, Seq<char>)>::empty();
    let mut idx = Index::new();
    let mut i: usize = 0;
    proof {
        assert(records@.take(0) =~= Seq::<NameRecord>::empty());
    }
    while i < records.len()
        invariant
            i <= records@.len(),
            idx.wf(),
            idx.as_map() == records_fold(m0, records@.take(i as int)),
            forall|a: int, b: int|
                0 <= a < i && 0 <= b < records@[a].images@.len() ==> valid_ref_chars(
                    (#[trigger] records@[a].images@[b]).ref_text@,
                ),
        decreases records@.len() - i,
    {
        let rec = &records[i];
        let mut j: usize = 0;
        proof {
            assert(records@[i as int].images@.take(0) =~= Seq::<ImageRecord>::empty());
        }
        while j < rec.images.len()
            invariant
                j <= rec.images@.len(),
                i < records@.len(),
                rec == &records@[i as int],
                idx.wf(),
                idx.as_map() == images_fold(
                    records_fold(m0, records@.take(i as int)),
                    records@[i as int].name@,
                    records@[i as int].images@.take(j as int),
                ),
                forall|a: int, b: int|
                    0 <= a < i && 0 <= b < records@[a].images@.len() ==> valid_ref_chars(
                        (#[trigger] records@[a].images@[b]).ref_text@,
                    ),
                forall|b: int| 0 <= b < j ==> valid_ref_chars(
                    (#[trigger] records@[i as int].images@[b]).ref_text@,
                ),
            decreases rec.images@.len() - j,
        {
            let img = &rec.images[j];
            let reference = match Ref::parse(img.ref_text.as_str()) {
                Ok(rr) => rr,
                Err(e) => {
                    return Err(e);
                },
            };
            let mut address = rec.name.clone();
            address.append("@");
            address.append(img.digest.as_str());
            proof {
                let imgs = records@[i as int].images@;
                assert(imgs.take(j + 1).drop_last() =~= imgs.take(j as int));
                assert(imgs.take(j + 1).last() == imgs[j as int]);
                assert(address@ == records@[i as int].name@ + "@"@ + imgs[j as int].digest@);
                assert(reference@ == imgs[j as int].ref_text@);
            }
            idx.put(reference, address, img.metadata.clone());
            j += 1;
        }
        proof {
            assert(records@[i as int].images@.take(rec.images@.len() as int) =~= records@[
                i as int].images@);
            assert(records@.take(i + 1).drop_last() =~= records@.take(i as int));
            assert(records@.take(i + 1).last() == records@[i as int]);
        }
        i += 1;
    }
    proof {
        assert(records@.take(records@.len() as int) =~= records@);
    }
    Ok(idx)
}

/// The address line `info` prints: the repository, then the image address.
pub fn image_url(repository: &str, image: &str) -> (r: String)
    ensures
        r@ == repository@ + image@,
{
    let mut s = repository.to_owned();
    s.append(image);
    s
}

} // verus!
