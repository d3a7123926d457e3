//! Candidate values for the arguments and options of a command, keyed by
//! the kind of parameter and its name.

use vstd::prelude::*;
use crate::text::{str_chars, contains_char};

verus! {

broadcast use vstd::string::group_string_axioms;

/// Whether a value belongs to a positional argument or to an option.
#[derive(Debug, Clone, Copy, PartialEq, Eq, Hash, Structural)]
pub enum Kind {
    Argument,
    Option,
}

/// One parameter and the values found for it, in the order found.
pub struct ValueEntry {
    pub kind: Kind,
    pub name: String,
    pub values: Vec<String>,
}

/// Values found per parameter, in the order the parameters were first seen.
pub struct Values {
    pub entries: Vec<ValueEntry>,
}

/// A parameter's row: its kind, its name and its values.
pub type Row = (Kind, Seq<char>, Seq<Seq<char>>);

pub open spec fn row_of(e: ValueEntry) -> Row {
    (e.kind, e.name@, e.values@.map_values(|v: String| v@))
}

impl View for Values {
    type V = Seq<Row>;

    open spec fn view(&self) -> Seq<Row> {
        self.entries@.map_values(|e: ValueEntry| row_of(e))
    }
}

/// Row `i` belongs to the parameter `(kind, name)`.
pub open spec fn row_is(rows: Seq<Row>, i: int, kind: Kind, name: Seq<char>) -> bool {
    0 <= i < rows.len() && rows[i].0 == kind && rows[i].1 == name
}

/// The first row of the parameter `(kind, name)`, if any.
pub open spec fn find_row(rows: Seq<Row>, kind: Kind, name: Seq<char>) -> Option<int> {
    if exists|i: int| row_is(rows, i, kind, name) {
        Some(
            choose|i: int|
                row_is(rows, i, kind, name) && forall|j: int| 0 <= j < i ==> !row_is(rows, j, kind, name),
        )
    } else {
        None
    }
}

pub proof fn lemma_find_row(rows: Seq<Row>, kind: Kind, name: Seq<char>, i: int)
    requires
        row_is(rows, i, kind, name),
        forall|j: int| 0 <= j < i ==> !row_is(rows, j, kind, name),
    ensures
        find_row(rows, kind, name) == Some(i),
{
    let k = choose|k: int|
        row_is(rows, k, kind, name) && forall|j: int| 0 <= j < k ==> !row_is(rows, j, kind, name);
    if k < i {
        assert(!row_is(rows, k, kind, name));
    }
    if k > i {
        assert(!row_is(rows, i, kind, name));
    }
}

/// The values of the parameter `(kind, name)`, if it has a row.
pub open spec fn lookup(rows: Seq<Row>, kind: Kind, name: Seq<char>) -> Option<Seq<Seq<char>>> {
    match find_row(rows, kind, name) {
        Some(i) => Some(rows[i].2),
        None => None,
    }
}

/// A value that can be offered as a candidate: non-empty, and free of the
/// tab and newline that would split a cache line.
pub open spec fn acceptable_value(v: Seq<char>) -> bool {
    v.len() > 0 && !v.contains('\t') && !v.contains('\n')
}

/// `rows` after adding `value` to the parameter `(kind, name)`: values
/// that are not acceptable, or already present, leave it unchanged.
pub open spec fn add_value(rows: Seq<Row>, kind: Kind, name: Seq<char>, value: Seq<char>) -> Seq<Row> {
    if !acceptable_value(value) {
        rows
    } else {
        match find_row(rows, kind, name) {
            Some(i) => if rows[i].2.contains(value) {
                rows
            } else {
                rows.update(i, (kind, name, rows[i].2.push(value)))
            },
            None => rows.push((kind, name, seq![value])),
        }
    }
}

/// `rows` after adding each of `values` in turn.
pub open spec fn add_values(rows: Seq<Row>, kind: Kind, name: Seq<char>, values: Seq<Seq<char>>) -> Seq<Row>
    decreases values.len(),
{
    if values.len() == 0 {
        rows
    } else {
        add_value(add_values(rows, kind, name, values.drop_last()), kind, name, values.last())
    }
}

pub open spec fn views_of_strings(v: Seq<String>) -> Seq<Seq<char>> {
    v.map_values(|s: String| s@)
}

pub proof fn lemma_contains_push<T>(s: Seq<T>, x: T, v: T)
    ensures
        s.push(x).contains(v) == (s.contains(v) || x == v),
{
    if s.push(x).contains(v) {
        let k = choose|k: int| 0 <= k < s.push(x).len() && s.push(x)[k] == v;
        if k < s.len() {
            assert(s[k] == v);
        }
    }
    if s.contains(v) {
        let k = choose|k: int| 0 <= k < s.len() && s[k] == v;
        assert(s.push(x)[k] == v);
    }
    if x == v {
        assert(s.push(x)[s.len() as int] == v);
    }
}

/// Whether `value` is among `vs`.
pub fn contains_string(vs: &Vec<String>, value: &String) -> (r: bool)
    ensures
        r == views_of_strings(vs@).contains(value@),
{
    let ghost all = views_of_strings(vs@);
    let mut found = false;
    let mut j: usize = 0;
    while j < vs.len()
        invariant
            all == views_of_strings(vs@),
            j <= vs.len(),
            found == all.take(j as int).contains(value@),
        decreases vs.len() - j,
    {
        let same = vs[j] == *value;
        assert(all[j as int] == vs@[j as int]@);
        if same {
            found = true;
        }
        proof {
            lemma_contains_push(all.take(j as int), all[j as int], value@);
            assert(all.take(j + 1) == all.take(j as int).push(all[j as int]));
        }
        j = j + 1;
    }
    assert(all.take(vs.len() as int) == all);
    found
}

impl Values {
    pub fn new() -> (r: Values)
        ensures
            r@ == Seq::<Row>::empty(),
    {
        Values { entries: Vec::new() }
    }

    /// Index of the first entry of the parameter `(kind, name)`.
    pub(crate) fn position(&self, kind: Kind, name: &String) -> (r: Option<usize>)
        ensures
            match r {
                Some(i) => i < self.entries.len() && row_is(self@, i as int, kind, name@) && find_row(
                    self@,
                    kind,
                    name@,
                ) == Some(i as int),
                None => find_row(self@, kind, name@) is None,
            },
    {
        let mut i: usize = 0;
        while i < self.entries.len()
            invariant
                i <= self.entries.len(),
                forall|j: int| 0 <= j < i ==> !row_is(self@, j, kind, name@),
            decreases self.entries.len() - i,
        {
            let e = &self.entries[i];
            if e.kind == kind && e.name == *name {
                proof {
                    lemma_find_row(self@, kind, name@, i as int);
                }
                return Some(i);
            }
            i = i + 1;
        }
        None
    }

    /// The values of the parameter `(kind, name)`, if any were found.
    pub fn get(&self, kind: &Kind, name: &str) -> (r: Option<&Vec<String>>)
        ensures
            match r {
                Some(v) => lookup(self@, *kind, name@) == Some(views_of_strings(v@)),
                None => lookup(self@, *kind, name@) is None,
            },
    {
        let key = String::from_str(name);
        match self.position(*kind, &key) {
            Some(i) => Some(&self.entries[i].values),
            None => None,
        }
    }

    /// Records `value` for the parameter `key`, once; empty values and values
    /// holding a tab or newline are ignored.
    pub fn add(&mut self, key: (Kind, String), value: String)
        ensures
            final(self)@ == add_value(old(self)@, key.0, key.1@, value@),
    {
        let chars = str_chars(value.as_str());
        if chars.len() == 0 || contains_char(&chars, '\t') || contains_char(&chars, '\n') {
            return;
        }
        let (kind, name) = key;
        match self.position(kind, &name) {
            Some(i) => {
                if !contains_string(&self.entries[i].values, &value) {
                    self.push_at(i, value);
                }
            },
            None => {
                self.push_new(kind, name, value);
            },
        }
    }

    pub(crate) fn push_at(&mut self, i: usize, value: String)
        requires
            i < old(self).entries.len(),
        ensures
            final(self)@ == old(self)@.update(
                i as int,
                (old(self)@[i as int].0, old(self)@[i as int].1, old(self)@[i as int].2.push(value@)),
            ),
    {
        let ghost old_rows = self@;
        let ghost old_entries = self.entries@;
        let mut entry = self.entries.remove(i);
        let ghost old_vals = entry.values@;
        entry.values.push(value);
        assert(entry.values@.map_values(|v: String| v@) =~= old_vals.map_values(|v: String| v@).push(
            value@,
        ));
        self.entries.insert(i, entry);
        assert(self.entries@ =~= old_entries.update(i as int, entry));
        assert(self@ =~= old_rows.update(
            i as int,
            (old_rows[i as int].0, old_rows[i as int].1, old_rows[i as int].2.push(value@)),
        ));
    }

    pub(crate) fn push_new(&mut self, kind: Kind, name: String, value: String)
        ensures
            final(self)@ == old(self)@.push((kind, name@, seq![value@])),
    {
        let ghost old_rows = self@;
        let ghost name_view = name@;
        let mut vs: Vec<String> = Vec::new();
        vs.push(value);
        assert(vs@.map_values(|v: String| v@) =~= seq![value@]);
        self.entries.push(ValueEntry { kind, name, values: vs });
        assert(self@ =~= old_rows.push((kind, name_view, seq![value@])));
    }

    /// A copy of these values.
    pub fn duplicate(&self) -> (r: Values)
        ensures
            r@ == self@,
    {
        let mut entries: Vec<ValueEntry> = Vec::new();
        let mut i: usize = 0;
        while i < self.entries.len()
            invariant
                i <= self.entries.len(),
                entries@.map_values(|e: ValueEntry| row_of(e)) == self@.take(i as int),
            decreases self.entries.len() - i,
        {
            let e = &self.entries[i];
            let ghost before = entries@;
            let copy = ValueEntry {
                kind: e.kind,
                name: e.name.clone(),
                values: crate::text::clone_strings(&e.values),
            };
            entries.push(copy);
            assert(entries@.map_values(|e: ValueEntry| row_of(e)) == before.map_values(
                |e: ValueEntry| row_of(e),
            ).push(row_of(copy)));
            assert(self@.take(i + 1) == self@.take(i as int).push(self@[i as int]));
            i = i + 1;
        }
        assert(self@.take(self.entries.len() as int) == self@);
        Values { entries }
    }

    /// Records each of `values` for the parameter `key`, in order.
    pub fn add_all(&mut self, key: &(Kind, String), values: Vec<String>)
        ensures
            final(self)@ == add_values(old(self)@, key.0, key.1@, views_of_strings(values@)),
    {
        let ghost start = self@;
        let mut i: usize = 0;
        while i < values.len()
            invariant
                i <= values.len(),
                self@ == add_values(start, key.0, key.1@, views_of_strings(values@).take(i as int)),
            decreases values.len() - i,
        {
            let (kind, name) = key;
            self.add((*kind, name.clone()), values[i].clone());
            let ghost vs = views_of_strings(values@);
            assert(vs.take(i + 1).drop_last() == vs.take(i as int));
            i = i + 1;
        }
        assert(views_of_strings(values@).take(values.len() as int) == views_of_strings(values@));
    }
}


/// One row per parameter, no value twice in a row, and every value
/// acceptable.
pub open spec fn values_clean(rows: Seq<Row>) -> bool {
    &&& forall|i: int, j: int|
        0 <= i < j < rows.len() ==> !(#[trigger] rows[i].0 == #[trigger] rows[j].0 && rows[i].1 == rows[j].1)
    &&& forall|i: int, a: int, b: int|
        0 <= i < rows.len() && 0 <= a < b < rows[i].2.len() ==> #[trigger] rows[i].2[a] != #[trigger] rows[i].2[b]
    &&& forall|i: int, a: int| 0 <= i < rows.len() && 0 <= a < rows[i].2.len() ==> acceptable_value(#[trigger] rows[i].2[a])
}

pub proof fn lemma_find_row_facts(rows: Seq<Row>, kind: Kind, name: Seq<char>)
    ensures
        find_row(rows, kind, name) matches Some(i) ==> row_is(rows, i, kind, name),
        find_row(rows, kind, name) is None ==> forall|i: int| !row_is(rows, i, kind, name),
{
    if exists|i: int| row_is(rows, i, kind, name) {
        let i = choose|i: int| row_is(rows, i, kind, name);
        lemma_least_row(rows, kind, name, i);
    }
}

proof fn lemma_least_row(rows: Seq<Row>, kind: Kind, name: Seq<char>, i: int)
    requires
        row_is(rows, i, kind, name),
    ensures
        exists|m: int| row_is(rows, m, kind, name) && forall|j: int| 0 <= j < m ==> !row_is(rows, j, kind, name),
    decreases i,
{
    if exists|j: int| 0 <= j < i && row_is(rows, j, kind, name) {
        let j = choose|j: int| 0 <= j < i && row_is(rows, j, kind, name);
        lemma_least_row(rows, kind, name, j);
    } else {
        assert(row_is(rows, i, kind, name) && forall|j: int| 0 <= j < i ==> !row_is(rows, j, kind, name));
    }
}

/// Adding a value keeps values clean (each parameter once, each value once
/// per parameter, only acceptable values), and an acceptable value is
/// among the parameter's values afterwards.
pub proof fn lemma_add_value_clean(rows: Seq<Row>, kind: Kind, name: Seq<char>, value: Seq<char>)
    requires
        values_clean(rows),
    ensures
        values_clean(add_value(rows, kind, name, value)),
        acceptable_value(value) ==> (lookup(add_value(rows, kind, name, value), kind, name) matches Some(
            vs,
        ) && vs.contains(value)),
{
    lemma_find_row_facts(rows, kind, name);
    let r = add_value(rows, kind, name, value);
    if acceptable_value(value) {
        match find_row(rows, kind, name) {
            Some(i) => {
                if !rows[i].2.contains(value) {
                    let vs = rows[i].2.push(value);
                    assert forall|k: int, a: int, b: int|
                        0 <= k < r.len() && 0 <= a < b < r[k].2.len() implies #[trigger] r[k].2[a]
                        != #[trigger] r[k].2[b] by {
                        if k == i && b == vs.len() - 1 {
                            assert(r[k].2[a] == rows[i].2[a]);
                        }
                    }
                    assert forall|k: int, j: int|
                        0 <= k < j < r.len() implies !(#[trigger] r[k].0 == #[trigger] r[j].0 && r[k].1
                        == r[j].1) by {
                        assert(r[k].0 == rows[k].0 && r[k].1 == rows[k].1);
                        assert(r[j].0 == rows[j].0 && r[j].1 == rows[j].1);
                    }
                    assert forall|k: int, a: int|
                        0 <= k < r.len() && 0 <= a < r[k].2.len() implies acceptable_value(#[trigger] r[k].2[a]) by {
                        if k == i && a == vs.len() - 1 {
                        } else if k == i {
                            assert(r[k].2[a] == rows[i].2[a]);
                        }
                    }
                    assert(r[i].2[vs.len() - 1] == value);
                }
                lemma_find_row_facts(r, kind, name);
                assert(row_is(r, i, kind, name));
                assert forall|j: int| 0 <= j < i implies !row_is(r, j, kind, name) by {
                    assert(r[j] == rows[j]);
                }
                lemma_find_row(r, kind, name, i);
            },
            None => {
                assert forall|k: int, j: int|
                    0 <= k < j < r.len() implies !(#[trigger] r[k].0 == #[trigger] r[j].0 && r[k].1 == r[j].1) by {
                    if j == rows.len() {
                        assert(!row_is(rows, k, kind, name));
                    }
                }
                assert(r[rows.len() as int].2[0] == value);
                assert forall|j: int| 0 <= j < rows.len() implies !row_is(r, j, kind, name) by {
                    assert(!row_is(rows, j, kind, name));
                }
                lemma_find_row(r, kind, name, rows.len() as int);
            },
        }
    }
}

/// Adding values in turn keeps values clean.
pub proof fn lemma_add_values_clean(rows: Seq<Row>, kind: Kind, name: Seq<char>, values: Seq<Seq<char>>)
    requires
        values_clean(rows),
    ensures
        values_clean(add_values(rows, kind, name, values)),
    decreases values.len(),
{
    if values.len() > 0 {
        lemma_add_values_clean(rows, kind, name, values.drop_last());
        lemma_add_value_clean(add_values(rows, kind, name, values.drop_last()), kind, name, values.last());
    }
}

/// `b` grows `a`: each parameter of `a` keeps its place in `b`, and its
/// values in `a` come first among its values in `b`.
pub open spec fn grows(a: Seq<Row>, b: Seq<Row>) -> bool {
    &&& a.len() <= b.len()
    &&& forall|i: int|
        0 <= i < a.len() ==> (#[trigger] b[i]).0 == a[i].0 && b[i].1 == a[i].1 && b[i].2.len() >= a[i].2.len()
            && b[i].2.take(a[i].2.len() as int) == a[i].2
}

/// Values that are clean (see `values_clean`) and hold no parameter without
/// values.
pub open spec fn extracted_clean(rows: Seq<Row>) -> bool {
    &&& values_clean(rows)
    &&& forall|i: int| 0 <= i < rows.len() ==> (#[trigger] rows[i]).2.len() > 0
}

pub proof fn lemma_grows_refl(a: Seq<Row>)
    ensures
        grows(a, a),
{
    assert forall|i: int| 0 <= i < a.len() implies (#[trigger] a[i]).2.take(a[i].2.len() as int) == a[i].2 by {
        assert(a[i].2.take(a[i].2.len() as int) =~= a[i].2);
    }
}

pub proof fn lemma_grows_trans(a: Seq<Row>, b: Seq<Row>, c: Seq<Row>)
    requires
        grows(a, b),
        grows(b, c),
    ensures
        grows(a, c),
{
    assert forall|i: int| 0 <= i < a.len() implies (#[trigger] c[i]).0 == a[i].0 && c[i].1 == a[i].1 && c[i].2.len()
        >= a[i].2.len() && c[i].2.take(a[i].2.len() as int) == a[i].2 by {
        assert(b[i].2.take(a[i].2.len() as int) == a[i].2);
        assert(c[i].2.take(b[i].2.len() as int) == b[i].2);
        assert(c[i].2.take(a[i].2.len() as int) =~= c[i].2.take(b[i].2.len() as int).take(a[i].2.len() as int));
    }
}

/// Adding a value keeps clean values clean and non-empty, and grows them.
pub proof fn lemma_add_value_grows(rows: Seq<Row>, kind: Kind, name: Seq<char>, value: Seq<char>)
    requires
        extracted_clean(rows),
    ensures
        extracted_clean(add_value(rows, kind, name, value)),
        grows(rows, add_value(rows, kind, name, value)),
{
    lemma_add_value_clean(rows, kind, name, value);
    lemma_find_row_facts(rows, kind, name);
    lemma_grows_refl(rows);
    let r = add_value(rows, kind, name, value);
    if acceptable_value(value) {
        match find_row(rows, kind, name) {
            Some(i) => {
                if !rows[i].2.contains(value) {
                    assert forall|k: int| 0 <= k < rows.len() implies (#[trigger] r[k]).0 == rows[k].0 && r[k].1
                        == rows[k].1 && r[k].2.len() >= rows[k].2.len() && r[k].2.take(rows[k].2.len() as int)
                        == rows[k].2 by {
                        if k == i {
                            assert(r[k].2.take(rows[k].2.len() as int) =~= rows[k].2);
                        } else {
                            assert(r[k].2.take(rows[k].2.len() as int) =~= rows[k].2);
                        }
                    }
                    assert forall|k: int| 0 <= k < r.len() implies (#[trigger] r[k]).2.len() > 0 by {
                        if k != i {
                            assert(r[k] == rows[k]);
                        }
                    }
                }
            },
            None => {
                assert forall|k: int| 0 <= k < rows.len() implies (#[trigger] r[k]).0 == rows[k].0 && r[k].1
                    == rows[k].1 && r[k].2.len() >= rows[k].2.len() && r[k].2.take(rows[k].2.len() as int)
                    == rows[k].2 by {
                    assert(r[k] == rows[k]);
                    assert(r[k].2.take(rows[k].2.len() as int) =~= rows[k].2);
                }
                assert forall|k: int| 0 <= k < r.len() implies (#[trigger] r[k]).2.len() > 0 by {
                    if k < rows.len() {
                        assert(r[k] == rows[k]);
                    }
                }
            },
        }
    }
}

/// Adding values in turn keeps clean values clean and non-empty, and grows
/// them.
pub proof fn lemma_add_values_grows(rows: Seq<Row>, kind: Kind, name: Seq<char>, values: Seq<Seq<char>>)
    requires
        extracted_clean(rows),
    ensures
        extracted_clean(add_values(rows, kind, name, values)),
        grows(rows, add_values(rows, kind, name, values)),
    decreases values.len(),
{
    if values.len() == 0 {
        lemma_grows_refl(rows);
    } else {
        let mid = add_values(rows, kind, name, values.drop_last());
        lemma_add_values_grows(rows, kind, name, values.drop_last());
        lemma_add_value_grows(mid, kind, name, values.last());
        lemma_grows_trans(rows, mid, add_value(mid, kind, name, values.last()));
    }
}

/// A value among a parameter's values stays among them as clean values
/// grow.
pub proof fn lemma_lookup_grows(a: Seq<Row>, b: Seq<Row>, kind: Kind, name: Seq<char>, s: Seq<char>)
    requires
        values_clean(b),
        grows(a, b),
        lookup(a, kind, name) matches Some(vs) && vs.contains(s),
    ensures
        lookup(b, kind, name) matches Some(ws) && ws.contains(s),
{
    lemma_find_row_facts(a, kind, name);
    let i = find_row(a, kind, name)->0;
    assert(row_is(b, i, kind, name));
    assert forall|j: int| 0 <= j < i implies !row_is(b, j, kind, name) by {
        if row_is(b, j, kind, name) {
            assert(b[j].0 == b[i].0 && b[j].1 == b[i].1);
        }
    }
    lemma_find_row(b, kind, name, i);
    let vs = a[i].2;
    let k = choose|k: int| 0 <= k < vs.len() && vs[k] == s;
    assert(b[i].2.take(vs.len() as int)[k] == s);
    assert(b[i].2[k] == s);
}

} // verus!
