use vstd::prelude::*;

verus! {

/// What `str::to_lowercase` makes of a string.
pub uninterp spec fn lower_of(s: Seq<char>) -> Seq<char>;

/// Relies on `str::to_lowercase`: the result depends on the characters alone.
#[verifier::external_body]
fn lowercase(s: &str) -> (r: String)
    ensures
        r@ == lower_of(s@),
{
    s.to_lowercase()
}

/// An installed template: its metadata and the directory holding its files.
pub struct Template {
    pub name: String,
    pub description: String,
    pub alias: Vec<String>,
    pub commands: Vec<String>,
    pub ignore: Vec<String>,
    pub path: String,
}

/// Whether `t` answers to the lower-cased query `q`: one of its aliases is `q`,
/// or its lower-cased name is.
pub open spec fn matches_query(t: Template, q: Seq<char>) -> bool {
    (exists|j: int| 0 <= j < t.alias@.len() && (#[trigger] t.alias@[j])@ == q)
        || lower_of(t.name@) == q
}

impl Template {
    /// Whether this template answers to the already lower-cased query `q`.
    pub fn matches_lowered(&self, q: &String) -> (r: bool)
        ensures
            r == matches_query(*self, q@),
    {
        let mut j: usize = 0;
        while j < self.alias.len()
            invariant
                j <= self.alias@.len(),
                forall|k: int| 0 <= k < j ==> (#[trigger] self.alias@[k])@ != q@,
            decreases self.alias@.len() - j,
        {
            if self.alias[j] == *q {
                return true;
            }
            j = j + 1;
        }
        let lowered = lowercase(self.name.as_str());
        lowered == *q
    }
}

/// Index of the last template in `reg` named `name`, or -1 when none is.
pub open spec fn index_of_name(reg: Seq<Template>, name: Seq<char>) -> int
    decreases reg.len(),
{
    if reg.len() == 0 {
        -1
    } else if reg.last().name@ == name {
        reg.len() - 1
    } else {
        index_of_name(reg.drop_last(), name)
    }
}

/// `reg` after reading `t`: a template of the same name is replaced in place,
/// otherwise `t` comes last.
pub open spec fn add_template(reg: Seq<Template>, t: Template) -> Seq<Template> {
    let i = index_of_name(reg, t.name@);
    if i >= 0 {
        reg.update(i, t)
    } else {
        reg.push(t)
    }
}

/// The registry read from `entries` in order, where `None` stands for a
/// template whose metadata could not be read: those are left out.
pub open spec fn registry_of(entries: Seq<Option<Template>>) -> Seq<Template>
    decreases entries.len(),
{
    if entries.len() == 0 {
        Seq::empty()
    } else {
        let reg = registry_of(entries.drop_last());
        match entries.last() {
            Some(t) => add_template(reg, t),
            None => reg,
        }
    }
}

/// No two templates share a name.
pub open spec fn names_unique(reg: Seq<Template>) -> bool {
    forall|i: int, j: int| 0 <= i < j < reg.len() ==> reg[i].name@ != reg[j].name@
}

/// A template read from readable metadata is listed, unless a later readable
/// entry has the same name; unreadable entries do not keep it out.
pub proof fn lemma_loaded_template_listed(entries: Seq<Option<Template>>, i: int)
    requires
        0 <= i < entries.len(),
        entries[i] is Some,
        forall|j: int|
            i < j < entries.len() && (#[trigger] entries[j]) is Some ==> entries[j]->Some_0.name@
                != entries[i]->Some_0.name@,
    ensures
        registry_of(entries).contains(entries[i]->Some_0),
    decreases entries.len(),
{
    let t = entries[i]->Some_0;
    let reg = registry_of(entries.drop_last());
    if i == entries.len() - 1 {
        lemma_index_of_name(reg, t.name@);
        let k = index_of_name(reg, t.name@);
        if k >= 0 {
            assert(add_template(reg, t)[k] == t);
        } else {
            assert(add_template(reg, t)[reg.len() as int] == t);
        }
    } else {
        let p = entries.drop_last();
        assert forall|j: int| i < j < p.len() && (#[trigger] p[j]) is Some implies p[j]->Some_0.name@
            != p[i]->Some_0.name@ by {
            assert(p[j] == entries[j]);
        }
        lemma_loaded_template_listed(p, i);
        let m = choose|m: int| 0 <= m < reg.len() && reg[m] == t;
        match entries.last() {
            Some(u) => {
                assert(entries[entries.len() - 1] is Some);
                lemma_index_of_name(reg, u.name@);
                let k = index_of_name(reg, u.name@);
                if k >= 0 {
                    assert(k != m);
                    assert(add_template(reg, u)[m] == t);
                } else {
                    assert(add_template(reg, u)[m] == t);
                }
            },
            None => {},
        }
    }
}

/// Every listed template was read from one of the entries.
pub proof fn lemma_listed_template_loaded(entries: Seq<Option<Template>>, k: int)
    requires
        0 <= k < registry_of(entries).len(),
    ensures
        exists|i: int| 0 <= i < entries.len() && entries[i] == Some(registry_of(entries)[k]),
    decreases entries.len(),
{
    let p = entries.drop_last();
    let reg = registry_of(p);
    let last = entries.len() - 1;
    match entries.last() {
        Some(u) => {
            lemma_index_of_name(reg, u.name@);
            let idx = index_of_name(reg, u.name@);
            if (idx >= 0 && k == idx) || (idx < 0 && k == reg.len()) {
                assert(entries[last] == Some(registry_of(entries)[k]));
            } else {
                lemma_listed_template_loaded(p, k);
                let i = choose|i: int| 0 <= i < p.len() && p[i] == Some(reg[k]);
                assert(entries[i] == Some(registry_of(entries)[k]));
            }
        },
        None => {
            lemma_listed_template_loaded(p, k);
            let i = choose|i: int| 0 <= i < p.len() && p[i] == Some(reg[k]);
            assert(entries[i] == Some(registry_of(entries)[k]));
        },
    }
}

proof fn lemma_index_of_name(reg: Seq<Template>, name: Seq<char>)
    ensures
        -1 <= index_of_name(reg, name) < reg.len(),
        index_of_name(reg, name) >= 0 ==> reg[index_of_name(reg, name)].name@ == name,
        index_of_name(reg, name) >= 0 ==> forall|j: int|
            index_of_name(reg, name) < j < reg.len() ==> reg[j].name@ != name,
        index_of_name(reg, name) < 0 ==> forall|j: int| 0 <= j < reg.len() ==> reg[j].name@ != name,
    decreases reg.len(),
{
    if reg.len() > 0 && reg.last().name@ != name {
        lemma_index_of_name(reg.drop_last(), name);
        let p = reg.drop_last();
        assert forall|j: int| 0 <= j < p.len() implies reg[j] == p[j] by {}
    }
}

/// The installed templates, read once and then only looked up.
pub struct Registry {
    templates: Vec<Template>,
}

impl Registry {
    /// The templates, in the order they were read.
    pub closed spec fn view(&self) -> Seq<Template> {
        self.templates@
    }

    /// No two templates of the registry share a name.
    pub open spec fn wf(&self) -> bool {
        names_unique(self@)
    }

    /// A registry with no template.
    pub fn new() -> (r: Registry)
        ensures
            r@ == Seq::<Template>::empty(),
            r.wf(),
    {
        Registry { templates: Vec::new() }
    }

    /// Adds a template; one of the same name read earlier gives way to it.
    pub fn add(&mut self, t: Template)
        requires
            old(self).wf(),
        ensures
            final(self)@ == add_template(old(self)@, t),
            final(self).wf(),
    {
        let ghost reg = self.templates@;
        proof {
            lemma_index_of_name(reg, t.name@);
        }
        let mut i: usize = self.templates.len();
        while i > 0
            invariant
                reg == self.templates@,
                reg == old(self)@,
                names_unique(reg),
                i <= reg.len(),
                index_of_name(reg, t.name@) < i,
            decreases i,
        {
            i = i - 1;
            proof {
                lemma_index_of_name(reg, t.name@);
            }
            if self.templates[i].name == t.name {
                proof {
                    assert(reg[i as int].name@ == t.name@);
                    assert(index_of_name(reg, t.name@) == i);
                    assert forall|a: int, b: int| 0 <= a < b < reg.len() implies
                        reg.update(i as int, t)[a].name@ != reg.update(i as int, t)[b].name@ by {}
                }
                self.templates.set(i, t);
                assert(self.templates@ == add_template(reg, t));
                return;
            }
        }
        proof {
            lemma_index_of_name(reg, t.name@);
        }
        self.templates.push(t);
    }

    /// The registry made of what was read from storage: entries that could not
    /// be read are left out, and of two templates with one name the later wins.
    pub fn from_loaded(entries: Vec<Option<Template>>) -> (r: Registry)
        ensures
            r@ == registry_of(entries@),
            r.wf(),
    {
        let ghost all = entries@;
        let n = entries.len();
        let mut rest = entries;
        let mut r = Registry::new();
        let mut i: usize = 0;
        assert(all.subrange(0, 0) =~= Seq::<Option<Template>>::empty());
        while rest.len() > 0
            invariant
                n == all.len(),
                i + rest@.len() == all.len(),
                rest@ == all.subrange(i as int, all.len() as int),
                r@ == registry_of(all.subrange(0, i as int)),
                r.wf(),
            decreases rest@.len(),
        {
            let e = rest.remove(0);
            assert(all.subrange(0, i + 1).drop_last() =~= all.subrange(0, i as int));
            assert(e == all[i as int]);
            match e {
                Some(t) => r.add(t),
                None => {},
            }
            i = i + 1;
            assert(rest@ =~= all.subrange(i as int, all.len() as int));
        }
        assert(all.subrange(0, all.len() as int) =~= all);
        r
    }

    /// The templates, in the order they were read.
    pub fn list_templates(&self) -> (r: &Vec<Template>)
        ensures
            r@ == self@,
    {
        &self.templates
    }

    /// The first template that answers to the already lower-cased query `q`.
    pub fn find_lowered(&self, q: &String) -> (r: Option<&Template>)
        ensures
            match r {
                Some(t) => exists|i: int|
                    0 <= i < self@.len() && *t == self@[i] && matches_query(self@[i], q@)
                        && forall|j: int| 0 <= j < i ==> !matches_query(#[trigger] self@[j], q@),
                None => forall|i: int| 0 <= i < self@.len() ==> !matches_query(#[trigger] self@[i], q@),
            },
    {
        let mut i: usize = 0;
        while i < self.templates.len()
            invariant
                i <= self@.len(),
                forall|j: int| 0 <= j < i ==> !matches_query(#[trigger] self@[j], q@),
            decreases self@.len() - i,
        {
            if self.templates[i].matches_lowered(q) {
                return Some(&self.templates[i]);
            }
            i = i + 1;
        }
        None
    }

    /// The first template whose name, or one of whose aliases, is `query`
    /// once lower-cased; names are compared lower-cased too.
    pub fn find(&self, query: &str) -> (r: Option<&Template>)
        ensures
            match r {
                Some(t) => exists|i: int|
                    0 <= i < self@.len() && *t == self@[i] && matches_query(self@[i], lower_of(query@))
                        && forall|j: int| 0 <= j < i ==> !matches_query(#[trigger] self@[j], lower_of(query@)),
                None => forall|i: int|
                    0 <= i < self@.len() ==> !matches_query(#[trigger] self@[i], lower_of(query@)),
            },
    {
        let q = lowercase(query);
        self.find_lowered(&q)
    }
}

} // verus!
