//! Installed applications as the uninstall registry lists them: which entries count,
//! how repeats are dropped, and their order.
use vstd::prelude::*;
use crate::models::{InstalledAppRecord, PathStats};
use crate::text::{chars_of, extend_chars, key_views, string_from, strings_contain, trim, trim_chars, unicode_lowercase};

verus! {

pub open spec fn opt_text(o: Option<&str>) -> Option<Seq<char>> {
    match o {
        Some(s) => Some(s@),
        None => None,
    }
}

/// A registry value that is present and not blank.
pub open spec fn present(o: Option<Seq<char>>) -> Option<Seq<char>> {
    match o {
        Some(s) => if trim(s).len() > 0 {
            Some(s)
        } else {
            None
        },
        None => None,
    }
}

/// The key by which repeated registry entries are recognized: the display name and
/// the install location (or nothing), in Unicode lowercase.
pub open spec fn dedupe_key(display_name: Seq<char>, install_location: Option<Seq<char>>) -> Seq<char> {
    unicode_lowercase(display_name) + seq!['|'] + match install_location {
        Some(l) => unicode_lowercase(l),
        None => seq![],
    }
}

/// An install location as entries are compared by it: in Unicode lowercase, or empty
/// where there is none.
pub open spec fn location_key(l: Option<Seq<char>>) -> Seq<char> {
    match l {
        Some(x) => unicode_lowercase(x),
        None => seq![],
    }
}

proof fn lemma_split_at_bar(a: Seq<char>, x: Seq<char>, b: Seq<char>, y: Seq<char>)
    requires
        !a.contains('|'),
        !b.contains('|'),
        a + seq!['|'] + x == b + seq!['|'] + y,
    ensures
        a == b,
        x == y,
{
    let l = a + seq!['|'] + x;
    let r = b + seq!['|'] + y;
    if a.len() < b.len() {
        assert(l[a.len() as int] == '|');
        assert(r[a.len() as int] == b[a.len() as int]);
        assert(b.contains(b[a.len() as int]));
    } else if b.len() < a.len() {
        assert(r[b.len() as int] == '|');
        assert(l[b.len() as int] == a[b.len() as int]);
        assert(a.contains(a[b.len() as int]));
    }
    assert(a.len() == b.len());
    assert(a =~= l.take(a.len() as int));
    assert(b =~= r.take(b.len() as int));
    assert(x =~= l.skip(a.len() as int + 1));
    assert(y =~= r.skip(b.len() as int + 1));
}

pub type RecordView = (Seq<char>, Seq<char>, Option<Seq<char>>, Option<PathStats>, Seq<char>);

pub open spec fn record_view(r: InstalledAppRecord) -> RecordView {
    (
        r.display_name@,
        r.source@,
        match r.install_location {
            Some(l) => Some(l@),
            None => None,
        },
        r.install_stats,
        r.uninstall_key@,
    )
}

pub open spec fn record_views(s: Seq<InstalledAppRecord>) -> Seq<RecordView> {
    s.map_values(|r: InstalledAppRecord| record_view(r))
}

/// A record as the collector keeps it: a display name that is not blank, an install
/// location that is absent or not blank, and stats only where there is a location.
pub open spec fn record_is_sound(r: RecordView) -> bool {
    &&& trim(r.0).len() > 0
    &&& match r.2 {
        Some(l) => trim(l).len() > 0,
        None => r.3 is None,
    }
}

/// The installed applications read from the registry so far, without repeats.
pub struct InstalledAppCollector {
    records: Vec<InstalledAppRecord>,
    seen: Vec<String>,
}

impl InstalledAppCollector {
    /// The keys seen are those of the records kept, no two are equal, and every
    /// record kept is sound. The fields are private, so only this type's methods keep
    /// it.
    pub closed spec fn wf(self) -> bool {
        &&& self.seen@.len() == self.records@.len()
        &&& forall|i: int, j: int| 0 <= i < j < self.seen@.len() ==> (#[trigger] self.seen@[i])@ != (#[trigger] self.seen@[j])@
        &&& forall|j: int| 0 <= j < self.records@.len() ==> record_is_sound(#[trigger] record_view(self.records@[j]))
        &&& forall|j: int| 0 <= j < self.seen@.len() ==> #[trigger] self.seen@[j]@ == dedupe_key(
            self.records@[j].display_name@,
            match self.records@[j].install_location {
                Some(l) => Some(l@),
                None => None,
            },
        )
    }

    /// The records kept so far, in order.
    pub closed spec fn kept(self) -> Seq<RecordView> {
        record_views(self.records@)
    }

    pub fn new() -> (r: Self)
        ensures
            r.wf(),
            r.kept() == Seq::<RecordView>::empty(),
    {
        let r = InstalledAppCollector { records: Vec::new(), seen: Vec::new() };
        assert(r.kept() =~= Seq::<RecordView>::empty());
        r
    }

    /// Handles one uninstall entry: it counts only with a display name that is not
    /// blank; a blank install location counts as none, and then so do the stats
    /// (`install_stats`, measured by the caller where the location exists); an entry
    /// whose display name and location repeat an earlier one is dropped.
    pub fn add_registry_entry(
        &mut self,
        source: &str,
        uninstall_key: &str,
        display_name: Option<&str>,
        install_location: Option<&str>,
        install_stats: Option<PathStats>,
    ) -> (added: bool)
        requires
            old(self).wf(),
        ensures
            final(self).wf(),
            ({
                let name = present(opt_text(display_name));
                let loc = present(opt_text(install_location));
                match name {
                    Some(n) => if !(exists|j: int| 0 <= j < old(self).kept().len() && dedupe_key(
                        #[trigger] old(self).kept()[j].0,
                        old(self).kept()[j].2,
                    ) == dedupe_key(n, loc)) {
                        added && final(self).kept() == old(self).kept().push(
                            (n, source@, loc, if loc is Some { install_stats } else { None }, uninstall_key@),
                        )
                    } else {
                        !added && final(self).kept() == old(self).kept()
                    },
                    None => !added && final(self).kept() == old(self).kept(),
                }
            }),
    {
        let ghost k = self.kept();
        let name = match display_name {
            Some(n) => n,
            None => return false,
        };
        let nc = chars_of(name);
        if trim_chars(nc.as_slice()).len() == 0 {
            return false;
        }
        let location: Option<&str> = match install_location {
            Some(l) => {
                let lc = chars_of(l);
                if trim_chars(lc.as_slice()).len() > 0 {
                    Some(l)
                } else {
                    None
                }
            },
            None => None,
        };
        let mut key: Vec<char> = Vec::new();
        let nl = crate::text::to_lowercase(name);
        crate::text::extend_str(&mut key, nl.as_str());
        key.push('|');
        match location {
            Some(l) => {
                let ll = crate::text::to_lowercase(l);
                crate::text::extend_str(&mut key, ll.as_str());
            },
            None => {},
        }
        let key_s = string_from(key.as_slice());
        proof {
            assert(key_s@ =~= dedupe_key(name@, opt_text(location)));
        }
        if strings_contain(self.seen.as_slice(), key_s.as_str()) {
            proof {
                let j = choose|j: int| 0 <= j < key_views(self.seen@).len() && key_views(self.seen@)[j] == key_s@;
                assert(self.seen@[j]@ == key_s@);
                assert(k[j].0 == self.records@[j].display_name@);
            }
            return false;
        }
        proof {
            assert forall|j: int| 0 <= j < k.len() implies dedupe_key(#[trigger] k[j].0, k[j].2) != dedupe_key(
                name@,
                opt_text(location),
            ) by {
                assert(k[j].0 == self.records@[j].display_name@);
                assert(key_views(self.seen@)[j] == self.seen@[j]@);
            }
        }
        let stats = if location.is_some() {
            install_stats
        } else {
            None
        };
        let record = InstalledAppRecord {
            display_name: name.to_string(),
            source: source.to_string(),
            install_location: match location {
                Some(l) => Some(l.to_string()),
                None => None,
            },
            install_stats: stats,
            uninstall_key: uninstall_key.to_string(),
        };
        let ghost rv = record_view(record);
        let ghost old_seen = self.seen@;
        proof {
            assert forall|j: int| 0 <= j < old_seen.len() implies old_seen[j]@ != key_s@ by {
                assert(key_views(old_seen)[j] == old_seen[j]@);
            }
        }
        let ghost old_records = self.records@;
        proof {
            assert(record_is_sound(rv));
        }
        self.records.push(record);
        self.seen.push(key_s);
        assert(self.kept() =~= k.push(rv));
        proof {
            assert forall|j: int| 0 <= j < self.records@.len() implies record_is_sound(#[trigger] record_view(self.records@[j])) by {
                if j < old_records.len() {
                    assert(self.records@[j] == old_records[j]);
                }
            }
        }
        proof {
            assert forall|i: int, j: int| 0 <= i < j < self.seen@.len() implies (#[trigger] self.seen@[i])@
                != (#[trigger] self.seen@[j])@ by {
                if j == old_seen.len() {
                    assert(self.seen@[i] == old_seen[i]);
                } else {
                    assert(self.seen@[i] == old_seen[i] && self.seen@[j] == old_seen[j]);
                }
            }
        }
        true
    }

    /// No two records kept share a display name and install location, compared in
    /// Unicode lowercase.
    pub proof fn law_installed_records_distinct(self, i: int, j: int)
        requires
            self.wf(),
            0 <= i < j < self.kept().len(),
        ensures
            dedupe_key(self.kept()[i].0, self.kept()[i].2) != dedupe_key(self.kept()[j].0, self.kept()[j].2),
    {
        assert(self.kept()[i].0 == self.records@[i].display_name@);
        assert(self.kept()[j].0 == self.records@[j].display_name@);
        assert(self.seen@[i]@ != self.seen@[j]@);
    }

    /// An entry is dropped exactly when an earlier kept record has the same display
    /// name and the same install location (or both have none), compared in Unicode
    /// lowercase: with `name` and `location` as `add_registry_entry` reads them (not
    /// blank), the condition under which it drops the entry holds just then. Left out:
    /// display names whose lowercase holds `|`, where name and location run together.
    pub proof fn law_registry_entry_dropped_only_when_repeated(self, name: Seq<char>, location: Option<Seq<char>>)
        requires
            self.wf(),
            !unicode_lowercase(name).contains('|'),
            forall|j: int| 0 <= j < self.kept().len() ==> !unicode_lowercase(#[trigger] self.kept()[j].0).contains('|'),
        ensures
            (exists|j: int| 0 <= j < self.kept().len() && dedupe_key(#[trigger] self.kept()[j].0, self.kept()[j].2) == dedupe_key(
                name,
                location,
            )) <==> (exists|j: int| 0 <= j < self.kept().len() && unicode_lowercase(#[trigger] self.kept()[j].0) == unicode_lowercase(name)
                && location_key(self.kept()[j].2) == location_key(location)),
    {
        let k = self.kept();
        if exists|j: int| 0 <= j < k.len() && dedupe_key(#[trigger] k[j].0, k[j].2) == dedupe_key(name, location) {
            let j = choose|j: int| 0 <= j < k.len() && dedupe_key(#[trigger] k[j].0, k[j].2) == dedupe_key(name, location);
            assert(dedupe_key(k[j].0, k[j].2) == unicode_lowercase(k[j].0) + seq!['|'] + location_key(k[j].2));
            assert(dedupe_key(name, location) == unicode_lowercase(name) + seq!['|'] + location_key(location));
            lemma_split_at_bar(unicode_lowercase(k[j].0), location_key(k[j].2), unicode_lowercase(name), location_key(location));
        }
        if exists|j: int| 0 <= j < k.len() && unicode_lowercase(#[trigger] k[j].0) == unicode_lowercase(name) && location_key(k[j].2)
            == location_key(location) {
            let j = choose|j: int| 0 <= j < k.len() && unicode_lowercase(#[trigger] k[j].0) == unicode_lowercase(name) && location_key(
                k[j].2,
            ) == location_key(location);
            assert(dedupe_key(k[j].0, k[j].2) == dedupe_key(name, location));
        }
    }

    /// The records a collector finishes with, in the order by display name that
    /// `finish` gives: each is sound (a display name that is not blank, a location
    /// absent or not blank, stats only with a location), and no two positions share a
    /// display name and install location in Unicode lowercase.
    pub proof fn law_finished_records_sound_and_distinct(self, order: Seq<usize>, a: int, b: int)
        requires
            self.wf(),
            crate::order::is_stable_order(display_name_keys(self.kept()), order),
            0 <= a < order.len(),
            0 <= b < order.len(),
            a != b,
        ensures
            record_is_sound(order.map_values(|i: usize| self.kept()[i as int])[a]),
            dedupe_key(
                order.map_values(|i: usize| self.kept()[i as int])[a].0,
                order.map_values(|i: usize| self.kept()[i as int])[a].2,
            ) != dedupe_key(
                order.map_values(|i: usize| self.kept()[i as int])[b].0,
                order.map_values(|i: usize| self.kept()[i as int])[b].2,
            ),
    {
        let x = order[a] as int;
        let y = order[b] as int;
        assert(x < self.kept().len() && y < self.kept().len() && x != y);
        assert(self.kept()[x] == record_view(self.records@[x]));
        if x < y {
            self.law_installed_records_distinct(x, y);
        } else {
            self.law_installed_records_distinct(y, x);
        }
    }

    /// The records kept, by display name (a stable order).
    pub fn finish(self) -> (r: Vec<InstalledAppRecord>)
        requires
            self.wf(),
        ensures
            exists|order: Seq<usize>|
                #[trigger] crate::order::is_stable_order(display_name_keys(self.kept()), order) && record_views(r@)
                    == order.map_values(|i: usize| self.kept()[i as int]),
    {
        let ghost rs = self.records@;
        let ghost k = self.kept();
        let r = sort_installed_apps(self.records);
        proof {
            let o = choose|o: Seq<usize>|
                #[trigger] crate::order::is_stable_order(display_name_keys(record_views(rs)), o) && record_views(r@)
                    == o.map_values(|i: usize| record_views(rs)[i as int]);
            assert(crate::order::is_stable_order(display_name_keys(k), o));
        }
        r
    }
}

pub open spec fn display_name_keys(s: Seq<RecordView>) -> Seq<crate::order::KeyView> {
    s.map_values(|r: RecordView| (0u64, 0u64, r.0))
}

/// Installed applications in a stable order by display name.
pub fn sort_installed_apps(records: Vec<InstalledAppRecord>) -> (r: Vec<InstalledAppRecord>)
    ensures
        exists|order: Seq<usize>|
            #[trigger] crate::order::is_stable_order(display_name_keys(record_views(records@)), order) && record_views(r@)
                == order.map_values(|i: usize| record_views(records@)[i as int]),
{
    let ghost rv = record_views(records@);
    let mut keys: Vec<crate::order::SortKey> = Vec::new();
    let mut i: usize = 0;
    while i < records.len()
        invariant
            i <= records@.len(),
            rv == record_views(records@),
            crate::order::sort_key_views(keys@) == display_name_keys(rv.take(i as int)),
        decreases records@.len() - i,
    {
        let ghost before = crate::order::sort_key_views(keys@);
        keys.push(crate::order::SortKey { first: 0, second: 0, text: chars_of(records[i].display_name.as_str()) });
        assert(crate::order::sort_key_views(keys@) =~= before.push((0u64, 0u64, rv[i as int].0)));
        i += 1;
        assert(rv.take(i as int) =~= rv.take(i - 1).push(rv[i - 1]));
        assert(crate::order::sort_key_views(keys@) =~= display_name_keys(rv.take(i as int)));
    }
    assert(rv.take(i as int) =~= rv);
    let order = crate::order::stable_order(keys.as_slice());
    let mut out: Vec<InstalledAppRecord> = Vec::new();
    let mut k: usize = 0;
    while k < order.len()
        invariant
            k <= order@.len(),
            order@.len() == records@.len(),
            forall|m: int| 0 <= m < order@.len() ==> order@[m] < records@.len(),
            rv == record_views(records@),
            record_views(out@) == order@.map_values(|i: usize| rv[i as int]).take(k as int),
        decreases order@.len() - k,
    {
        let c = &records[order[k]];
        let ghost before = record_views(out@);
        out.push(
            InstalledAppRecord {
                display_name: c.display_name.clone(),
                source: c.source.clone(),
                install_location: match &c.install_location {
                    Some(l) => Some(l.clone()),
                    None => None,
                },
                install_stats: c.install_stats,
                uninstall_key: c.uninstall_key.clone(),
            },
        );
        assert(record_views(out@) =~= before.push(rv[order@[k as int] as int]));
        k += 1;
        assert(order@.map_values(|i: usize| rv[i as int]).take(k as int) =~= order@.map_values(|i: usize| rv[i as int]).take(
            k - 1,
        ).push(rv[order@[k - 1] as int]));
    }
    assert(order@.map_values(|i: usize| rv[i as int]).take(k as int) =~= order@.map_values(|i: usize| rv[i as int]));
    out
}

} // verus!
