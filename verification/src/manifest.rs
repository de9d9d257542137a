//! The INI-shaped manifest carried by each image: named sections of
//! `key=value` entries, read once per mounted image. The runtime reference
//! and the child's environment come from here.

use vstd::prelude::*;

use crate::error::Error;
use crate::reference::{valid_ref_chars, Ref};
use crate::text::{
    find_char, index_of_first, split_chars, split_str, str_eq, trim, trim_spec, views_of,
};

verus! {

/// What one line of manifest text means.
pub enum LineKind {
    /// Blank, or a `;`/`#` comment.
    Blank,
    /// `[name]`.
    Section(Seq<char>),
    /// `key=value`.
    Entry(Seq<char>, Seq<char>),
    /// None of these.
    Bad,
}

/// Classifies one raw line. Surrounding blanks are trimmed; a section
/// header must close its bracket; any other line must carry `=`.
pub open spec fn classify_line(l: Seq<char>) -> LineKind {
    let t = trim_spec(l);
    if t.len() == 0 {
        LineKind::Blank
    } else if t[0] == ';' || t[0] == '#' {
        LineKind::Blank
    } else if t[0] == '[' {
        if t.len() >= 2 && t[t.len() - 1] == ']' {
            LineKind::Section(trim_spec(t.subrange(1, t.len() - 1)))
        } else {
            LineKind::Bad
        }
    } else {
        let i = index_of_first(t, '=');
        if i >= 0 {
            LineKind::Entry(trim_spec(t.take(i)), trim_spec(t.skip(i + 1)))
        } else {
            LineKind::Bad
        }
    }
}

/// One named section.
#[derive(Debug)]
pub struct IniSection {
    pub name: String,
    pub entries: Vec<(String, String)>,
}

/// A parsed manifest: the entries standing before any section header, then
/// the named sections in order of first appearance.
#[derive(Debug)]
pub struct Manifest {
    pub general: Vec<(String, String)>,
    pub sections: Vec<IniSection>,
}

/// The mathematical shape of a parsed manifest.
pub struct IniView {
    pub general: Seq<(Seq<char>, Seq<char>)>,
    pub sections: Seq<(Seq<char>, Seq<(Seq<char>, Seq<char>)>)>,
}

pub open spec fn entry_views(es: Seq<(String, String)>) -> Seq<(Seq<char>, Seq<char>)> {
    es.map_values(|e: (String, String)| (e.0@, e.1@))
}

pub open spec fn section_views(ss: Seq<IniSection>) -> Seq<
    (Seq<char>, Seq<(Seq<char>, Seq<char>)>),
> {
    ss.map_values(|s: IniSection| (s.name@, entry_views(s.entries@)))
}

impl View for Manifest {
    type V = IniView;

    open spec fn view(&self) -> IniView {
        IniView { general: entry_views(self.general@), sections: section_views(self.sections@) }
    }
}

/// Applies one line to the manifest built so far.
pub open spec fn ini_apply(acc: IniView, l: Seq<char>) -> Option<IniView> {
    match classify_line(l) {
        LineKind::Blank => Some(acc),
        LineKind::Section(name) => Some(
            IniView { general: acc.general, sections: acc.sections.push((name, Seq::empty())) },
        ),
        LineKind::Entry(k, v) => {
            if acc.sections.len() == 0 {
                Some(IniView { general: acc.general.push((k, v)), sections: acc.sections })
            } else {
                let last = acc.sections.last();
                Some(
                    IniView {
                        general: acc.general,
                        sections: acc.sections.drop_last().push((last.0, last.1.push((k, v)))),
                    },
                )
            }
        },
        LineKind::Bad => None,
    }
}

pub open spec fn ini_empty() -> IniView {
    IniView { general: Seq::empty(), sections: Seq::empty() }
}

/// Folds the lines of a manifest in order; a bad line spoils the whole.
pub open spec fn ini_fold(lines: Seq<Seq<char>>) -> Option<IniView>
    decreases lines.len(),
{
    if lines.len() == 0 {
        Some(ini_empty())
    } else {
        match ini_fold(lines.drop_last()) {
            Some(acc) => ini_apply(acc, lines.last()),
            None => None,
        }
    }
}

/// What manifest text means: its lines folded in order.
pub open spec fn manifest_spec(s: Seq<char>) -> Option<IniView> {
    ini_fold(split_chars(s, '\n'))
}

/// A spoiled prefix spoils the whole fold.
proof fn lemma_fold_prefix_none(lines: Seq<Seq<char>>, i: int)
    requires
        0 <= i <= lines.len(),
        ini_fold(lines.take(i)) is None,
    ensures
        ini_fold(lines) is None,
    decreases lines.len() - i,
{
    if i == lines.len() {
        assert(lines.take(i) =~= lines);
    } else {
        assert(lines.take(i + 1).drop_last() =~= lines.take(i));
        assert(ini_fold(lines.take(i + 1)) is None);
        lemma_fold_prefix_none(lines, i + 1);
    }
}

/// The classified shape of one line, as executable data.
enum Line {
    Blank,
    Section(String),
    Entry(String, String),
    Bad,
}

spec fn line_matches(r: Line, k: LineKind) -> bool {
    match r {
        Line::Blank => k is Blank,
        Line::Section(n) => k matches LineKind::Section(ns) && n@ == ns,
        Line::Entry(key, val) => k matches LineKind::Entry(ks, vs) && key@ == ks && val@ == vs,
        Line::Bad => k is Bad,
    }
}

fn classify(line: &str) -> (r: Line)
    ensures
        line_matches(r, classify_line(line@)),
{
    let t = trim(line);
    let n = t.unicode_len();
    if n == 0 {
        return Line::Blank;
    }
    let c0 = t.get_char(0);
    if c0 == ';' || c0 == '#' {
        return Line::Blank;
    }
    if c0 == '[' {
        if n >= 2 && t.get_char(n - 1) == ']' {
            let inner = t.substring_char(1, n - 1);
            let name = trim(inner);
            return Line::Section(name.to_owned());
        }
        return Line::Bad;
    }
    match find_char(t, '=') {
        Some(i) => {
            let key = trim(t.substring_char(0, i)).to_owned();
            proof {
                assert(t@.subrange(0, i as int) =~= t@.take(i as int));
            }
            let val = trim(t.substring_char(i + 1, n)).to_owned();
            proof {
                assert(t@.subrange(i + 1, n as int) =~= t@.skip(i + 1));
            }
            Line::Entry(key, val)
        },
        None => Line::Bad,
    }
}

impl Manifest {
    /// Parses manifest text; any malformed line refuses the whole.
    #[verifier::loop_isolation(false)]
    pub fn new(s: &str) -> (r: Result<Manifest, Error>)
        ensures
            r is Ok <==> manifest_spec(s@) is Some,
            r matches Ok(m) ==> Some(m@) == manifest_spec(s@),
            r is Err ==> r->Err_0 == Error::IniSyntax,
    {
        let lines = split_str(s, '\n');
        let ghost all = split_chars(s@, '\n');
        let mut general: Vec<(String, String)> = Vec::new();
        let mut sections: Vec<IniSection> = Vec::new();
        let mut i: usize = 0;
        proof {
            assert(all.take(0) =~= Seq::<Seq<char>>::empty());
            assert(entry_views(general@) =~= Seq::<(Seq<char>, Seq<char>)>::empty());
            assert(section_views(sections@) =~= Seq::<
                (Seq<char>, Seq<(Seq<char>, Seq<char>)>),
            >::empty());
        }
        while i < lines.len()
            invariant
                all == split_chars(s@, '\n'),
                views_of(lines@) == all,
                i <= lines@.len(),
                ini_fold(all.take(i as int)) == Some(
                    IniView {
                        general: entry_views(general@),
                        sections: section_views(sections@),
                    },
                ),
            decreases lines@.len() - i,
        {
            let ghost acc = IniView {
                general: entry_views(general@),
                sections: section_views(sections@),
            };
            proof {
                assert(all.take(i + 1).drop_last() =~= all.take(i as int));
                assert(all.take(i + 1).last() == all[i as int]);
                assert(all[i as int] == lines@[i as int]@);
            }
            match classify(lines[i].as_str()) {
                Line::Blank => {},
                Line::Section(name) => {
                    let sec = IniSection { name, entries: Vec::new() };
                    proof {
                        assert(entry_views(sec.entries@) =~= Seq::<(Seq<char>, Seq<char>)>::empty());
                        assert(section_views(sections@.push(sec)) =~= section_views(
                            sections@,
                        ).push((sec.name@, entry_views(sec.entries@))));
                    }
                    sections.push(sec);
                },
                Line::Entry(key, val) => {
                    if sections.len() == 0 {
                        proof {
                            assert(entry_views(general@.push((key, val))) =~= entry_views(
                                general@,
                            ).push((key@, val@)));
                        }
                        general.push((key, val));
                    } else {
                        let ghost secs0 = sections@;
                        let mut sec = sections.pop().unwrap();
                        proof {
                            assert(section_views(secs0.drop_last()) =~= section_views(
                                secs0,
                            ).drop_last());
                            assert(acc.sections.last() == (sec.name@, entry_views(sec.entries@)));
                        }
                        let ghost entries0 = sec.entries@;
                        sec.entries.push((key, val));
                        proof {
                            assert(entry_views(entries0.push((key, val))) =~= entry_views(
                                entries0,
                            ).push((key@, val@)));
                            assert(section_views(secs0.drop_last().push(sec)) =~= section_views(
                                secs0.drop_last(),
                            ).push((sec.name@, entry_views(sec.entries@))));
                        }
                        sections.push(sec);
                    }
                },
                Line::Bad => {
                    proof {
                        lemma_fold_prefix_none(all, i + 1);
                    }
                    return Err(Error::IniSyntax);
                },
            }
            i += 1;
        }
        proof {
            assert(all.take(lines@.len() as int) =~= all);
        }
        Ok(Manifest { general, sections })
    }
}

/// The entries of the first section with the given name.
pub open spec fn find_section_spec(
    sections: Seq<(Seq<char>, Seq<(Seq<char>, Seq<char>)>)>,
    name: Seq<char>,
) -> Option<Seq<(Seq<char>, Seq<char>)>>
    decreases sections.len(),
{
    if sections.len() == 0 {
        None
    } else if sections[0].0 == name {
        Some(sections[0].1)
    } else {
        find_section_spec(sections.drop_first(), name)
    }
}

/// The value of the first entry with the given key.
pub open spec fn find_value_spec(entries: Seq<(Seq<char>, Seq<char>)>, key: Seq<char>) -> Option<
    Seq<char>,
>
    decreases entries.len(),
{
    if entries.len() == 0 {
        None
    } else if entries[0].0 == key {
        Some(entries[0].1)
    } else {
        find_value_spec(entries.drop_first(), key)
    }
}

/// The value under `section` and `key`, when both exist.
pub open spec fn manifest_value(m: IniView, section: Seq<char>, key: Seq<char>) -> Option<
    Seq<char>,
> {
    match find_section_spec(m.sections, section) {
        Some(es) => find_value_spec(es, key),
        None => None,
    }
}

impl Manifest {
    /// The position of the first section with the given name.
    #[verifier::loop_isolation(false)]
    fn section_index(&self, name: &str) -> (r: Option<usize>)
        ensures
            r matches Some(i) ==> i < self.sections@.len() && find_section_spec(
                self@.sections,
                name@,
            ) == Some(section_views(self.sections@)[i as int].1) && self.sections@[i as int].name@
                == name@,
            r is None ==> find_section_spec(self@.sections, name@) is None,
    {
        let ghost all = section_views(self.sections@);
        let mut i: usize = 0;
        proof {
            assert(all.skip(0) =~= all);
        }
        while i < self.sections.len()
            invariant
                all == section_views(self.sections@),
                i <= self.sections@.len(),
                find_section_spec(all, name@) == find_section_spec(all.skip(i as int), name@),
            decreases self.sections@.len() - i,
        {
            proof {
                assert(all.skip(i as int)[0] == all[i as int]);
                assert(all.skip(i as int).drop_first() =~= all.skip(i + 1));
            }
            if str_eq(self.sections[i].name.as_str(), name) {
                return Some(i);
            }
            i += 1;
        }
        proof {
            assert(all.skip(self.sections@.len() as int) =~= Seq::<
                (Seq<char>, Seq<(Seq<char>, Seq<char>)>),
            >::empty());
        }
        None
    }

    /// The value under `section` and `key`, or which of the two is missing.
    #[verifier::loop_isolation(false)]
    pub fn get(&self, section: &str, key: &str) -> (r: Result<&str, Error>)
        ensures
            r is Ok <==> manifest_value(self@, section@, key@) is Some,
            r matches Ok(v) ==> v@ == manifest_value(self@, section@, key@)->Some_0,
            r == Err::<&str, Error>(Error::MissingSection) <==> find_section_spec(
                self@.sections,
                section@,
            ) is None,
            r == Err::<&str, Error>(Error::MissingKey) <==> (find_section_spec(
                self@.sections,
                section@,
            ) matches Some(es) && find_value_spec(es, key@) is None),
    {
        let si = match self.section_index(section) {
            Some(i) => i,
            None => {
                return Err(Error::MissingSection);
            },
        };
        let entries = &self.sections[si].entries;
        let ghost es = entry_views(entries@);
        let mut j: usize = 0;
        proof {
            assert(es.skip(0) =~= es);
        }
        while j < entries.len()
            invariant
                es == entry_views(entries@),
                j <= entries@.len(),
                find_value_spec(es, key@) == find_value_spec(es.skip(j as int), key@),
            decreases entries@.len() - j,
        {
            proof {
                assert(es.skip(j as int)[0] == es[j as int]);
                assert(es.skip(j as int).drop_first() =~= es.skip(j + 1));
            }
            if str_eq(entries[j].0.as_str(), key) {
                return Ok(entries[j].1.as_str());
            }
            j += 1;
        }
        proof {
            assert(es.skip(entries@.len() as int) =~= Seq::<(Seq<char>, Seq<char>)>::empty());
        }
        Err(Error::MissingKey)
    }

    /// The value under `section` and `key`, if both exist.
    pub fn get_opt(&self, section: &str, key: &str) -> (r: Option<&str>)
        ensures
            r is Some <==> manifest_value(self@, section@, key@) is Some,
            r matches Some(v) ==> v@ == manifest_value(self@, section@, key@)->Some_0,
    {
        match self.get(section, key) {
            Ok(v) => Some(v),
            Err(_) => None,
        }
    }

    /// The runtime reference an application manifest names, promoted to a
    /// full `runtime/...` reference.
    pub fn get_runtime(&self) -> (r: Result<Ref, Error>)
        ensures
            manifest_value(self@, "Application"@, "runtime"@) matches Some(v) ==> {
                &&& r is Ok <==> valid_ref_chars("runtime/"@ + v)
                &&& (r matches Ok(rr) ==> rr.wf() && rr@ == "runtime/"@ + v)
                &&& (r is Err ==> r->Err_0 == Error::InvalidRef)
            },
            manifest_value(self@, "Application"@, "runtime"@) is None ==> r is Err && (r->Err_0
                == Error::MissingSection || r->Err_0 == Error::MissingKey),
    {
        match self.get("Application", "runtime") {
            Ok(v) => Ref::new_runtime(v),
            Err(e) => Err(e),
        }
    }

    /// The `[Environment]` entries, in order, as owned pairs.
    #[verifier::loop_isolation(false)]
    pub fn get_environment(&self) -> (r: Result<Vec<(String, String)>, Error>)
        ensures
            r is Ok <==> find_section_spec(self@.sections, "Environment"@) is Some,
            r matches Ok(es) ==> Some(entry_views(es@)) == find_section_spec(
                self@.sections,
                "Environment"@,
            ),
            r is Err ==> r->Err_0 == Error::MissingSection,
    {
        let si = match self.section_index("Environment") {
            Some(i) => i,
            None => {
                return Err(Error::MissingSection);
            },
        };
        let entries = &self.sections[si].entries;
        let mut out: Vec<(String, String)> = Vec::new();
        let mut j: usize = 0;
        proof {
            assert(entry_views(out@) =~= entry_views(entries@).take(0));
        }
        while j < entries.len()
            invariant
                j <= entries@.len(),
                entry_views(out@) == entry_views(entries@).take(j as int),
            decreases entries@.len() - j,
        {
            let k = entries[j].0.clone();
            let v = entries[j].1.clone();
            proof {
                assert(entry_views(out@.push((k, v))) =~= entry_views(out@).push((k@, v@)));
                assert(entry_views(entries@).take(j + 1) =~= entry_views(entries@).take(
                    j as int,
                ).push(entry_views(entries@)[j as int]));
            }
            out.push((k, v));
            j += 1;
        }
        proof {
            assert(entry_views(entries@).take(entries@.len() as int) =~= entry_views(entries@));
        }
        Ok(out)
    }
}

} // verus!
