//! What the continuous output of the system's Bonjour browser says about phones on the network.
//!
//! Each line of interest names a service instance and one of its records: `SRV` with its host and
//! port, or `TXT` with quoted `key=value` pairs. A phone is known once both have been seen.

use vstd::prelude::*;
use crate::link::{PhoneDevice, PhoneDeviceView};
use crate::text::{chars_of, contains_text, find_char, parse_number, same_text, split_words, start_of_text, string_of, trim_tail};

verus! {

/// What has been seen of a service instance.
pub struct Partial {
    pub host: Option<Seq<char>>,
    pub port: Option<u16>,
    pub role: Option<Seq<char>>,
    pub id: Option<Seq<char>>,
    pub name: Option<Seq<char>>,
}

/// Nothing has been seen.
pub open spec fn unseen() -> Partial {
    Partial { host: None, port: None, role: None, id: None, name: None }
}

/// A `key=value` pair.
pub open spec fn pair_of(item: Seq<char>) -> Seq<(Seq<char>, Seq<char>)> {
    let eq = crate::text::char_from(item, '=', 0);
    if eq < item.len() {
        seq![(item.subrange(0, eq), item.subrange(eq + 1, item.len() as int))]
    } else {
        Seq::empty()
    }
}

/// The pairs between quotation marks from `pos` on. A mark that is never closed reaches to the end.
pub open spec fn quoted_pairs(s: Seq<char>, pos: int) -> Seq<(Seq<char>, Seq<char>)>
    decreases s.len() - pos,
{
    if !(0 <= pos <= s.len()) {
        Seq::empty()
    } else {
        let open = crate::text::char_from(s, '"', pos);
        proof {
            crate::text::lemma_char_from(s, '"', pos);
            if open < s.len() {
                crate::text::lemma_char_from(s, '"', open + 1);
            }
        }
        if open >= s.len() {
            Seq::empty()
        } else {
            let close = crate::text::char_from(s, '"', open + 1);
            let first = pair_of(s.subrange(open + 1, close));
            if close >= s.len() {
                first
            } else {
                first + quoted_pairs(s, close + 1)
            }
        }
    }
}

/// What a line says about an instance.
pub enum Record {
    /// Where its service is.
    Service(Seq<char>, u16),
    /// Its service record cannot be read.
    Unreadable,
    /// Its properties.
    Properties(Seq<(Seq<char>, Seq<char>)>),
}

/// The instance that a line is about, and what it says. Lines about anything else say nothing.
pub open spec fn record_of(line: Seq<char>) -> Option<(Seq<char>, Record)> {
    let t = crate::text::trimmed_start(line);
    let parts = crate::text::words(t);
    if parts.len() < 2 || !crate::text::contains(parts[0], "_hypemuzik._tcp"@) {
        None
    } else if parts[1] == "SRV"@ && parts.len() >= 6 {
        match crate::text::number_in(parts[4], 65535) {
            Some(port) => Some(
                (parts[0], Record::Service(crate::text::without_tail(parts[5], '.'), port as u16)),
            ),
            None => Some((parts[0], Record::Unreadable)),
        }
    } else if parts[1] == "TXT"@ {
        Some((parts[0], Record::Properties(quoted_pairs(t, 0))))
    } else {
        None
    }
}

/// What has been seen, with one more property.
pub open spec fn with_property(p: Partial, key: Seq<char>, value: Seq<char>) -> Partial {
    if key == "role"@ {
        Partial { role: Some(value), ..p }
    } else if key == "id"@ {
        Partial { id: Some(value), ..p }
    } else if key == "name"@ {
        Partial { name: Some(value), ..p }
    } else {
        p
    }
}

/// What has been seen, with more properties; of two for one key the later counts.
pub open spec fn with_properties(p: Partial, pairs: Seq<(Seq<char>, Seq<char>)>) -> Partial
    decreases pairs.len(),
{
    if pairs.len() == 0 {
        p
    } else {
        with_property(with_properties(p, pairs.drop_last()), pairs.last().0, pairs.last().1)
    }
}

/// What has been seen, with one more record.
pub open spec fn with_record(p: Partial, r: Record) -> Partial {
    match r {
        Record::Service(host, port) => Partial { host: Some(host), port: Some(port), ..p },
        Record::Unreadable => p,
        Record::Properties(pairs) => with_properties(p, pairs),
    }
}

/// The phone that an instance is, once it is known to be a source and where it is. A phone without
/// an id is known by its instance, one without a name as `Phone`.
pub open spec fn phone_at(instance: Seq<char>, p: Partial) -> Option<PhoneDeviceView> {
    match (p.role, p.host, p.port) {
        (Some(role), Some(host), Some(port)) => if role == "source"@ {
            Some(
                PhoneDeviceView {
                    id: match p.id {
                        Some(id) => id,
                        None => instance,
                    },
                    name: match p.name {
                        Some(name) => name,
                        None => "Phone"@,
                    },
                    host,
                    port,
                },
            )
        } else {
            None
        },
        _ => None,
    }
}

/// The pairs between quotation marks in a text.
pub fn parse_txt_quoted(s: &str) -> (r: Vec<(String, String)>)
    ensures
        pair_texts(r@) == quoted_pairs(s@, 0),
{
    let v = chars_of(s);
    let mut out: Vec<(String, String)> = Vec::new();
    let mut pos: usize = 0;
    let n: usize = v.len();
    assert(pair_texts(out@) + quoted_pairs(s@, 0) =~= quoted_pairs(s@, 0));
    loop
        invariant
            v@ == s@,
            n == v@.len(),
            pos <= n,
            pair_texts(out@) + quoted_pairs(s@, pos as int) == quoted_pairs(s@, 0),
        decreases n - pos,
    {
        let open: usize = find_char(v.as_slice(), '"', pos);
        if open >= n {
            assert(pair_texts(out@) + Seq::<(Seq<char>, Seq<char>)>::empty() =~= pair_texts(out@));
            return out;
        }
        let close: usize = find_char(v.as_slice(), '"', open + 1);
        let item = string_of(v.as_slice(), open + 1, close);
        let w = chars_of(item.as_str());
        let eq: usize = find_char(w.as_slice(), '=', 0);
        let ghost done = out@;
        let ghost rest = if close >= n {
            Seq::empty()
        } else {
            quoted_pairs(s@, close + 1)
        };
        assert(close >= n ==> pair_of(item@) + rest =~= pair_of(item@));
        if eq < w.len() {
            let key = string_of(w.as_slice(), 0, eq);
            let value = string_of(w.as_slice(), eq + 1, w.len());
            let ghost k = key@;
            let ghost x = value@;
            out.push((key, value));
            assert(pair_texts(out@) =~= pair_texts(done).push((k, x)));
            assert(pair_texts(done) + (seq![(k, x)] + rest) =~= pair_texts(out@) + rest);
        } else {
            assert(pair_texts(done) + (Seq::<(Seq<char>, Seq<char>)>::empty() + rest)
                =~= pair_texts(out@) + rest);
        }
        if close >= n {
            proof {
                assert(pair_texts(out@) + rest =~= pair_texts(out@));
            }
            return out;
        }
        pos = close + 1;
    }
}

/// The texts of pairs.
pub open spec fn pair_texts(s: Seq<(String, String)>) -> Seq<(Seq<char>, Seq<char>)> {
    s.map_values(|p: (String, String)| (p.0@, p.1@))
}

/// One instance and what has been seen of it.
struct Sighting {
    instance: String,
    host: Option<String>,
    port: Option<u16>,
    role: Option<String>,
    id: Option<String>,
    name: Option<String>,
}

spec fn text_of(s: Option<String>) -> Option<Seq<char>> {
    match s {
        Some(t) => Some(t@),
        None => None,
    }
}

impl Sighting {
    spec fn partial(self) -> Partial {
        Partial {
            host: text_of(self.host),
            port: self.port,
            role: text_of(self.role),
            id: text_of(self.id),
            name: text_of(self.name),
        }
    }
}

/// The place of an instance.
spec fn instance_from(items: Seq<Sighting>, instance: Seq<char>, from: int) -> Option<int>
    decreases items.len() - from,
{
    if !(0 <= from < items.len()) {
        None
    } else if items[from].instance@ == instance {
        Some(from)
    } else {
        instance_from(items, instance, from + 1)
    }
}

proof fn lemma_instance_from(items: Seq<Sighting>, instance: Seq<char>, from: int)
    requires
        0 <= from,
    ensures
        match instance_from(items, instance, from) {
            Some(i) => from <= i < items.len() && items[i].instance@ == instance && forall|j: int|
                from <= j < i ==> (#[trigger] items[j]).instance@ != instance,
            None => forall|j: int|
                from <= j < items.len() ==> (#[trigger] items[j]).instance@ != instance,
        },
    decreases items.len() - from,
{
    if from < items.len() && items[from].instance@ != instance {
        lemma_instance_from(items, instance, from + 1);
    }
}

/// Everything seen so far.
pub struct Sightings {
    items: Vec<Sighting>,
}

impl Sightings {
    /// What has been seen of an instance.
    pub closed spec fn seen(&self, instance: Seq<char>) -> Partial {
        match instance_from(self.items@, instance, 0) {
            Some(i) => self.items@[i].partial(),
            None => unseen(),
        }
    }

    /// Nothing seen yet.
    pub fn new() -> (r: Sightings)
        ensures
            forall|instance: Seq<char>| #[trigger] r.seen(instance) == unseen(),
    {
        Sightings { items: Vec::new() }
    }

    /// The place of an instance, which is a new one where nothing has been seen of it.
    fn place(&mut self, instance: &String) -> (i: usize)
        ensures
            i < final(self).items@.len(),
            instance_from(final(self).items@, instance@, 0) == Some(i as int),
            forall|x: Seq<char>| #[trigger] final(self).seen(x) == old(self).seen(x),
    {
        let mut i: usize = 0;
        while i < self.items.len()
            invariant
                self == old(self),
                i <= self.items@.len(),
                instance_from(self.items@, instance@, i as int) == instance_from(
                    self.items@,
                    instance@,
                    0,
                ),
            decreases self.items@.len() - i,
        {
            if same_text(self.items[i].instance.as_str(), instance.as_str()) {
                return i;
            }
            i += 1;
        }
        let fresh = Sighting {
            instance: instance.clone(),
            host: None,
            port: None,
            role: None,
            id: None,
            name: None,
        };
        let ghost before = self.items@;
        self.items.push(fresh);
        proof {
            let now = self.items@;
            lemma_instance_from(before, instance@, 0);
            lemma_instance_from(now, instance@, 0);
            assert(now[before.len() as int].instance@ == instance@);
            if let Some(k) = instance_from(now, instance@, 0) {
                if k < before.len() {
                    assert(before[k] == now[k]);
                }
            }
            assert forall|x: Seq<char>| #[trigger] self.seen(x) == old(self).seen(x) by {
                lemma_instance_from(before, x, 0);
                lemma_instance_from(now, x, 0);
                if let Some(k) = instance_from(before, x, 0) {
                    assert(now[k] == before[k]);
                    let m = instance_from(now, x, 0)->0;
                    if m < k {
                        assert(now[m] == before[m]);
                    }
                } else if let Some(m) = instance_from(now, x, 0) {
                    if m < before.len() {
                        assert(now[m] == before[m]);
                    }
                }
            }
        }
        i
    }

    /// Replaces what has been seen of the instance at a place.
    fn put(&mut self, i: usize, s: Sighting)
        requires
            i < old(self).items@.len(),
            s.instance@ == old(self).items@[i as int].instance@,
            instance_from(old(self).items@, s.instance@, 0) == Some(i as int),
        ensures
            final(self).items@ == old(self).items@.update(i as int, s),
            final(self).seen(s.instance@) == s.partial(),
            forall|x: Seq<char>|
                x != s.instance@ ==> #[trigger] final(self).seen(x) == old(self).seen(x),
    {
        let ghost before = self.items@;
        self.items[i] = s;
        proof {
            let now = self.items@;
            assert forall|x: Seq<char>| #[trigger] instance_from(now, x, 0) == instance_from(
                before,
                x,
                0,
            ) by {
                lemma_same_instances(before, now, x, 0);
            }
            assert forall|x: Seq<char>| x != s.instance@ implies #[trigger] self.seen(x) == old(
                self,
            ).seen(x) by {
                lemma_instance_from(before, x, 0);
                assert(instance_from(now, x, 0) == instance_from(before, x, 0));
            }
            assert(instance_from(now, s.instance@, 0) == Some(i as int));
        }
    }
}

proof fn lemma_same_instances(a: Seq<Sighting>, b: Seq<Sighting>, x: Seq<char>, from: int)
    requires
        a.len() == b.len(),
        forall|i: int| 0 <= i < a.len() ==> (#[trigger] a[i]).instance@ == b[i].instance@,
    ensures
        instance_from(a, x, from) == instance_from(b, x, from),
    decreases a.len() - from,
{
    if 0 <= from < a.len() {
        assert(a[from].instance@ == b[from].instance@);
        lemma_same_instances(a, b, x, from + 1);
    }
}

fn copy_text(s: &Option<String>) -> (r: Option<String>)
    ensures
        text_of(r) == text_of(*s),
{
    match s {
        Some(t) => Some(t.clone()),
        None => None,
    }
}

impl Sighting {
    fn copy(&self) -> (r: Sighting)
        ensures
            r.instance@ == self.instance@,
            r.partial() == self.partial(),
    {
        Sighting {
            instance: self.instance.clone(),
            host: copy_text(&self.host),
            port: self.port,
            role: copy_text(&self.role),
            id: copy_text(&self.id),
            name: copy_text(&self.name),
        }
    }

    fn phone(&self) -> (r: Option<PhoneDevice>)
        ensures
            match r {
                Some(d) => phone_at(self.instance@, self.partial()) == Some(d@),
                None => phone_at(self.instance@, self.partial()) is None,
            },
    {
        let source = match &self.role {
            Some(role) => same_text(role.as_str(), "source"),
            None => false,
        };
        if !source {
            return None;
        }
        match (&self.host, self.port) {
            (Some(host), Some(port)) => {
                let id = match &self.id {
                    Some(id) => id.clone(),
                    None => self.instance.clone(),
                };
                let name = match &self.name {
                    Some(name) => name.clone(),
                    None => "Phone".to_owned(),
                };
                Some(PhoneDevice { id, name, host: host.clone(), port })
            },
            _ => None,
        }
    }

    fn learn(&mut self, pairs: Vec<(String, String)>)
        ensures
            final(self).instance@ == old(self).instance@,
            final(self).partial() == with_properties(old(self).partial(), pair_texts(pairs@)),
    {
        let ghost all = pair_texts(pairs@);
        let mut i: usize = 0;
        assert(all.take(0) =~= Seq::empty());
        while i < pairs.len()
            invariant
                i <= pairs@.len(),
                all == pair_texts(pairs@),
                self.instance@ == old(self).instance@,
                self.partial() == with_properties(old(self).partial(), all.take(i as int)),
            decreases pairs@.len() - i,
        {
            let key = &pairs[i].0;
            let value = pairs[i].1.clone();
            assert(all.take(i + 1).drop_last() =~= all.take(i as int));
            assert(all.take(i + 1).last() == (key@, value@));
            proof {
                reveal_strlit("role");
                reveal_strlit("id");
                reveal_strlit("name");
            }
            if same_text(key.as_str(), "role") {
                self.role = Some(value);
            } else if same_text(key.as_str(), "id") {
                self.id = Some(value);
            } else if same_text(key.as_str(), "name") {
                self.name = Some(value);
            }
            i += 1;
        }
        assert(all.take(i as int) =~= all);
    }
}

/// Takes in one line: the phone that its instance is now known to be, with its host as the line
/// names it.
pub fn watch(seen: &mut Sightings, line: &str) -> (r: Option<PhoneDevice>)
    ensures
        match record_of(line@) {
            None => r is None && forall|x: Seq<char>|
                #[trigger] final(seen).seen(x) == old(seen).seen(x),
            Some((instance, record)) => {
                &&& final(seen).seen(instance) == with_record(old(seen).seen(instance), record)
                &&& forall|x: Seq<char>|
                    x != instance ==> #[trigger] final(seen).seen(x) == old(seen).seen(x)
                &&& match r {
                    Some(d) => phone_at(instance, final(seen).seen(instance)) == Some(d@),
                    None => phone_at(instance, final(seen).seen(instance)) is None,
                }
            },
        },
{
    let v = chars_of(line);
    let from: usize = start_of_text(v.as_slice());
    let text = string_of(v.as_slice(), from, v.len());
    let parts = split_words(text.as_str());
    let ghost words = crate::text::words(text@);
    assert(parts@.len() == words.len());
    assert(forall|i: int| 0 <= i < parts@.len() ==> (#[trigger] parts@[i])@ == words[i]) by {
        assert forall|i: int| 0 <= i < parts@.len() implies (#[trigger] parts@[i])@ == words[i] by {
            assert(crate::text::texts(parts@)[i] == parts@[i]@);
        }
    }
    if parts.len() < 2 || !contains_text(parts[0].as_str(), "_hypemuzik._tcp") {
        return None;
    }
    proof {
        reveal_strlit("SRV");
        reveal_strlit("TXT");
    }
    let instance = &parts[0];
    if same_text(parts[1].as_str(), "SRV") && parts.len() >= 6 {
        let i: usize = seen.place(instance);
        let mut s = seen.items[i].copy();
        proof {
            lemma_instance_from(seen.items@, instance@, 0);
            assert(seen.seen(instance@) == s.partial());
            assert(s.partial() == old(seen).seen(instance@));
        }
        if let Some(port) = parse_number(parts[4].as_str(), 65535) {
            s.host = Some(trim_tail(parts[5].as_str(), '.'));
            s.port = Some(port as u16);
        }
        proof {
            let (_, record) = record_of(line@)->0;
            assert(s.partial() == with_record(old(seen).seen(instance@), record));
        }
        let phone = s.phone();
        seen.put(i, s);
        phone
    } else if same_text(parts[1].as_str(), "TXT") {
        let i: usize = seen.place(instance);
        let mut s = seen.items[i].copy();
        proof {
            lemma_instance_from(seen.items@, instance@, 0);
            assert(seen.seen(instance@) == s.partial());
            assert(s.partial() == old(seen).seen(instance@));
        }
        s.learn(parse_txt_quoted(text.as_str()));
        let phone = s.phone();
        seen.put(i, s);
        phone
    } else {
        None
    }
}

} // verus!
