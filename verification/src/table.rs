//! Name-indexed access to PLC variables: the table of variables built from
//! the metadata list, and reads and writes of several variables by name.
use vstd::prelude::*;
use crate::names::{meta_name, var_name};
use crate::vars::{
    PlcValue, PlcVarMeta, PlcVarType, VarError, VarErrorKind, decode_result, decode_value_from_state,
    encode_result, encode_value_to_state, lemma_read_after_write, lemma_read_locality, lemma_write_frame,
};

verus! {

/// The variable that `name` denotes in a metadata list read as a map built by
/// inserting the entries in order: the last entry with that name.
pub open spec fn meta_lookup(metas: Seq<PlcVarMeta>, name: Seq<char>) -> Option<PlcVarMeta>
    decreases metas.len(),
{
    if metas.len() == 0 {
        None
    } else if var_name(metas.last()) == name {
        Some(metas.last())
    } else {
        meta_lookup(metas.drop_last(), name)
    }
}

/// The distinct variable names of a metadata list, in order of first appearance.
pub open spec fn first_names(metas: Seq<PlcVarMeta>) -> Seq<Seq<char>>
    decreases metas.len(),
{
    if metas.len() == 0 {
        seq![]
    } else {
        let p = first_names(metas.drop_last());
        if p.contains(var_name(metas.last())) {
            p
        } else {
            p.push(var_name(metas.last()))
        }
    }
}

/// A name is listed exactly when it denotes a variable, and the variable it
/// denotes carries that name.
pub proof fn lemma_meta_lookup(metas: Seq<PlcVarMeta>, name: Seq<char>)
    ensures
        meta_lookup(metas, name) is Some <==> first_names(metas).contains(name),
        meta_lookup(metas, name) matches Some(m) ==> var_name(m) == name,
        first_names(metas).no_duplicates(),
    decreases metas.len(),
{
    if metas.len() > 0 {
        lemma_meta_lookup(metas.drop_last(), name);
        let p = first_names(metas.drop_last());
        let l = var_name(metas.last());
        if !p.contains(l) {
            assert(p.push(l).no_duplicates()) by {
                assert forall|i: int, j: int| 0 <= i < j < p.len() + 1 implies p.push(l)[i] != p.push(l)[j] by {
                    if j == p.len() {
                        assert(p.contains(p[i]));
                    }
                }
            }
            if name != l {
                assert(p.push(l).contains(name) ==> p.contains(name)) by {
                    if p.push(l).contains(name) {
                        let k = choose|k: int| 0 <= k < p.len() + 1 && p.push(l)[k] == name;
                        assert(p[k] == name);
                    }
                }
                assert(p.contains(name) ==> p.push(l).contains(name)) by {
                    if p.contains(name) {
                        let k = choose|k: int| 0 <= k < p.len() && p[k] == name;
                        assert(p.push(l)[k] == name);
                    }
                }
            } else {
                assert(p.push(l)[p.len() as int] == name);
            }
        }
    }
}

/// Index of the entry named `name`, if there is one.
fn position_of(entries: &Vec<(String, PlcVarMeta)>, name: &String) -> (r: Option<usize>)
    ensures
        match r {
            Some(j) => j < entries@.len() && entries@[j as int].0@ == name@,
            None => forall|k: int| 0 <= k < entries@.len() ==> (#[trigger] entries@[k]).0@ != name@,
        },
{
    let mut j: usize = 0;
    while j < entries.len()
        invariant
            0 <= j <= entries@.len(),
            forall|k: int| 0 <= k < j ==> (#[trigger] entries@[k]).0@ != name@,
        decreases entries@.len() - j,
    {
        if entries[j].0 == *name {
            return Some(j);
        }
        j = j + 1;
    }
    None
}

/// The variables of a metadata list, one entry per distinct name, in order
/// of the name's first appearance; each name maps to its last entry.
pub struct VarTable {
    entries: Vec<(String, PlcVarMeta)>,
    source: Ghost<Seq<PlcVarMeta>>,
}

impl VarTable {
    /// The metadata list the table was built from.
    pub closed spec fn source(&self) -> Seq<PlcVarMeta> {
        self.source@
    }

    pub closed spec fn entry_names(&self) -> Seq<Seq<char>> {
        self.entries@.map_values(|e: (String, PlcVarMeta)| e.0@)
    }

    /// Entries carry the first-appearance names of the source, each with the
    /// variable that its name denotes there.
    #[verifier::type_invariant]
    spec fn wf(&self) -> bool {
        &&& self.entry_names() == first_names(self.source@)
        &&& forall|i: int|
            0 <= i < self.entries@.len() ==> meta_lookup(self.source@, #[trigger] self.entries@[i].0@)
                == Some(self.entries@[i].1)
    }

    /// The variable that `name` denotes, if any.
    pub fn get(&self, name: &String) -> (r: Option<PlcVarMeta>)
        ensures
            r == meta_lookup(self.source(), name@),
    {
        proof {
            use_type_invariant(self);
        }
        match position_of(&self.entries, name) {
            Some(i) => {
                return Some(self.entries[i].1);
            },
            None => {},
        }
        proof {
            lemma_meta_lookup(self.source@, name@);
            if first_names(self.source@).contains(name@) {
                let k = choose|k: int| 0 <= k < first_names(self.source@).len() && first_names(self.source@)[k] == name@;
                assert(self.entry_names()[k] == self.entries@[k].0@);
            }
        }
        None
    }

    /// The names of the table, in table order.
    pub fn names(&self) -> (r: Vec<String>)
        ensures
            r@.map_values(|s: String| s@) == first_names(self.source()),
    {
        proof {
            use_type_invariant(self);
        }
        let mut r: Vec<String> = Vec::new();
        let mut i: usize = 0;
        while i < self.entries.len()
            invariant
                0 <= i <= self.entries@.len(),
                r@.len() == i,
                r@.map_values(|s: String| s@) =~= self.entry_names().subrange(0, i as int),
            decreases self.entries@.len() - i,
        {
            let n = self.entries[i].0.clone();
            r.push(n);
            assert(r@[i as int]@ == self.entry_names()[i as int]);
            i = i + 1;
        }
        assert(self.entry_names().subrange(0, i as int) =~= self.entry_names());
        r
    }

    /// Each name of the table with the type of the variable it denotes.
    pub fn types(&self) -> (r: Vec<(String, PlcVarType)>)
        ensures
            r@.map_values(|p: (String, PlcVarType)| p.0@) == first_names(self.source()),
            forall|i: int|
                0 <= i < r@.len() ==> (meta_lookup(self.source(), #[trigger] r@[i].0@) matches Some(m)
                    && m.var_type == r@[i].1),
    {
        proof {
            use_type_invariant(self);
        }
        let mut r: Vec<(String, PlcVarType)> = Vec::new();
        let mut i: usize = 0;
        while i < self.entries.len()
            invariant
                self.entry_names() == first_names(self.source@),
                forall|k: int|
                    0 <= k < self.entries@.len() ==> meta_lookup(self.source@, #[trigger] self.entries@[k].0@)
                        == Some(self.entries@[k].1),
                0 <= i <= self.entries@.len(),
                r@.len() == i,
                r@.map_values(|p: (String, PlcVarType)| p.0@) =~= self.entry_names().subrange(0, i as int),
                forall|j: int|
                    0 <= j < r@.len() ==> (meta_lookup(self.source@, #[trigger] r@[j].0@) matches Some(m)
                        && m.var_type == r@[j].1),
            decreases self.entries@.len() - i,
        {
            assert(meta_lookup(self.source@, self.entries@[i as int].0@) == Some(self.entries@[i as int].1));
            let n = self.entries[i].0.clone();
            r.push((n, self.entries[i].1.var_type));
            assert(r@[i as int].0@ == self.entry_names()[i as int]);
            i = i + 1;
        }
        assert(self.entry_names().subrange(0, i as int) =~= self.entry_names());
        r
    }
}

/// Builds the table of variables of a metadata list: names in order of first
/// appearance, each denoting the last variable of that name.
pub fn metadata_map(metas: &[PlcVarMeta]) -> (t: VarTable)
    ensures
        t.source() == metas@,
{
    let mut entries: Vec<(String, PlcVarMeta)> = Vec::new();
    let mut i: usize = 0;
    while i < metas.len()
        invariant
            0 <= i <= metas@.len(),
            entries@.map_values(|e: (String, PlcVarMeta)| e.0@) == first_names(metas@.subrange(0, i as int)),
            forall|j: int|
                0 <= j < entries@.len() ==> meta_lookup(metas@.subrange(0, i as int), #[trigger] entries@[j].0@)
                    == Some(entries@[j].1),
        decreases metas@.len() - i,
    {
        let meta = metas[i];
        let name = meta_name(&meta);
        let ghost prev = metas@.subrange(0, i as int);
        let ghost next = metas@.subrange(0, i + 1);
        assert(next.drop_last() =~= prev);
        assert(next.last() == meta);
        let ghost keys = entries@.map_values(|e: (String, PlcVarMeta)| e.0@);
        let pos = position_of(&entries, &name);
        if let Some(j) = pos {
            let ghost old_entries = entries@;
            entries.set(j, (name, meta));
            proof {
                lemma_meta_lookup(prev, name@);
                assert(keys[j as int] == name@);
                assert(keys.contains(name@));
                assert(entries@.map_values(|e: (String, PlcVarMeta)| e.0@) =~= keys);
                assert forall|k: int| 0 <= k < entries@.len() implies meta_lookup(next, #[trigger] entries@[k].0@)
                    == Some(entries@[k].1) by {
                    if k != j {
                        assert(entries@[k] == old_entries[k]);
                        assert(keys[k] == old_entries[k].0@);
                        lemma_meta_lookup(prev, keys[k]);
                        assert(keys.no_duplicates());
                        assert(keys[k] != keys[j as int]);
                    }
                }
            }
        } else {
            proof {
                assert(!keys.contains(name@)) by {
                    if keys.contains(name@) {
                        let k = choose|k: int| 0 <= k < keys.len() && keys[k] == name@;
                        assert(entries@[k].0@ == keys[k]);
                        assert(entries@[k].0@ != name@);
                    }
                }
            }
            let ghost old_entries = entries@;
            entries.push((name, meta));
            proof {
                assert(entries@.map_values(|e: (String, PlcVarMeta)| e.0@) =~= keys.push(name@));
                assert forall|k: int| 0 <= k < entries@.len() implies meta_lookup(next, #[trigger] entries@[k].0@)
                    == Some(entries@[k].1) by {
                    if k < old_entries.len() {
                        assert(entries@[k] == old_entries[k]);
                        assert(keys[k] == old_entries[k].0@);
                        assert(keys[k] != name@);
                    }
                }
            }
        }
        i = i + 1;
    }
    assert(metas@.subrange(0, i as int) =~= metas@);
    VarTable { entries, source: Ghost(metas@) }
}

/// Each variable name of a metadata list with the type of the variable it denotes.
pub fn var_types(metas: &[PlcVarMeta]) -> (r: Vec<(String, PlcVarType)>)
    ensures
        r@.map_values(|p: (String, PlcVarType)| p.0@) == first_names(metas@),
        forall|i: int|
            0 <= i < r@.len() ==> (meta_lookup(metas@, #[trigger] r@[i].0@) matches Some(m) && m.var_type
                == r@[i].1),
{
    let table = metadata_map(metas);
    table.types()
}

/// Reading one variable by name.
pub open spec fn read_var(state: Seq<u8>, metas: Seq<PlcVarMeta>, name: Seq<char>) -> Result<PlcValue, VarErrorKind> {
    match meta_lookup(metas, name) {
        None => Err(VarErrorKind::UnknownVariable),
        Some(m) => decode_result(state, m),
    }
}

/// Reading the variables `names` in order: all their values, or the position
/// of the first name that fails and why.
pub open spec fn read_vars(state: Seq<u8>, metas: Seq<PlcVarMeta>, names: Seq<Seq<char>>) -> Result<
    Seq<PlcValue>,
    (int, VarErrorKind),
>
    decreases names.len(),
{
    if names.len() == 0 {
        Ok(seq![])
    } else {
        match read_vars(state, metas, names.drop_last()) {
            Err(e) => Err(e),
            Ok(vs) => match read_var(state, metas, names.last()) {
                Ok(v) => Ok(vs.push(v)),
                Err(k) => Err(((names.len() - 1) as int, k)),
            },
        }
    }
}

/// Writing one variable by name: the new state.
pub open spec fn write_var(state: Seq<u8>, metas: Seq<PlcVarMeta>, name: Seq<char>, value: PlcValue) -> Result<
    Seq<u8>,
    VarErrorKind,
> {
    match meta_lookup(metas, name) {
        None => Err(VarErrorKind::UnknownVariable),
        Some(m) => encode_result(state, m, value),
    }
}

/// Writing the updates in order: the final state, or the position of the
/// first update that fails and why.
pub open spec fn write_vars(state: Seq<u8>, metas: Seq<PlcVarMeta>, updates: Seq<(Seq<char>, PlcValue)>) -> Result<
    Seq<u8>,
    (int, VarErrorKind),
>
    decreases updates.len(),
{
    if updates.len() == 0 {
        Ok(state)
    } else {
        match write_vars(state, metas, updates.drop_last()) {
            Err(e) => Err(e),
            Ok(s) => match write_var(s, metas, updates.last().0, updates.last().1) {
                Ok(s2) => Ok(s2),
                Err(k) => Err(((updates.len() - 1) as int, k)),
            },
        }
    }
}

pub open spec fn update_view(u: (String, PlcValue)) -> (Seq<char>, PlcValue) {
    (u.0@, u.1)
}

/// The names a read asks for: those given, or else every variable name in
/// order of first appearance.
pub open spec fn requested_names(metas: Seq<PlcVarMeta>, names: Option<Seq<String>>) -> Seq<Seq<char>> {
    match names {
        Some(ns) => ns.map_values(|s: String| s@),
        None => first_names(metas),
    }
}

proof fn lemma_read_vars_prefix_err(state: Seq<u8>, metas: Seq<PlcVarMeta>, names: Seq<Seq<char>>, j: int)
    requires
        0 <= j <= names.len(),
        read_vars(state, metas, names.subrange(0, j)) is Err,
    ensures
        read_vars(state, metas, names) == read_vars(state, metas, names.subrange(0, j)),
    decreases names.len() - j,
{
    if j < names.len() {
        let a = names.subrange(0, j + 1);
        assert(a.drop_last() =~= names.subrange(0, j));
        lemma_read_vars_prefix_err(state, metas, names, j + 1);
    } else {
        assert(names.subrange(0, j) =~= names);
    }
}

proof fn lemma_write_vars_prefix_err(state: Seq<u8>, metas: Seq<PlcVarMeta>, updates: Seq<(Seq<char>, PlcValue)>, j: int)
    requires
        0 <= j <= updates.len(),
        write_vars(state, metas, updates.subrange(0, j)) is Err,
    ensures
        write_vars(state, metas, updates) == write_vars(state, metas, updates.subrange(0, j)),
    decreases updates.len() - j,
{
    if j < updates.len() {
        let a = updates.subrange(0, j + 1);
        assert(a.drop_last() =~= updates.subrange(0, j));
        lemma_write_vars_prefix_err(state, metas, updates, j + 1);
    } else {
        assert(updates.subrange(0, j) =~= updates);
    }
}

fn clone_names(items: &[String]) -> (r: Vec<String>)
    ensures
        r@.map_values(|s: String| s@) == items@.map_values(|s: String| s@),
{
    let mut r: Vec<String> = Vec::new();
    let mut i: usize = 0;
    while i < items.len()
        invariant
            0 <= i <= items@.len(),
            r@.len() == i,
            r@.map_values(|s: String| s@) =~= items@.map_values(|s: String| s@).subrange(0, i as int),
        decreases items@.len() - i,
    {
        let n = items[i].clone();
        r.push(n);
        assert(r@[i as int]@ == items@[i as int]@);
        i = i + 1;
    }
    assert(items@.map_values(|s: String| s@).subrange(0, i as int) =~= items@.map_values(|s: String| s@));
    r
}

/// Reads the named variables (or, without names, every variable) out of the
/// state snapshot `state`, described by the metadata list `metas`. Fails on
/// the first name that is unknown or whose variable cannot be read.
pub fn var_values_from_bytes(state: &[u8], metas: &[PlcVarMeta], names: Option<&[String]>) -> (r: Result<
    Vec<(String, PlcValue)>,
    VarError,
>)
    ensures
        ({
            let targets = requested_names(metas@, match names { Some(ns) => Some(ns@), None => None });
            match r {
                Ok(out) => out@.map_values(|p: (String, PlcValue)| p.0@) == targets && read_vars(
                    state@,
                    metas@,
                    targets,
                ) == Ok::<Seq<PlcValue>, (int, VarErrorKind)>(out@.map_values(|p: (String, PlcValue)| p.1)),
                Err(e) => read_vars(state@, metas@, targets) is Err && e.kind == read_vars(
                    state@,
                    metas@,
                    targets,
                )->Err_0.1 && e.name@ == targets[read_vars(state@, metas@, targets)->Err_0.0],
            }
        }),
{
    let ghost targets = requested_names(metas@, match names { Some(ns) => Some(ns@), None => None });
    let table = metadata_map(metas);
    let wanted: Vec<String> = match names {
        Some(items) => clone_names(items),
        None => table.names(),
    };
    assert(wanted@.map_values(|s: String| s@) == targets);
    let mut out: Vec<(String, PlcValue)> = Vec::new();
    let mut i: usize = 0;
    assert(targets.subrange(0, 0) =~= Seq::<Seq<char>>::empty());
    assert(out@.map_values(|p: (String, PlcValue)| p.1) =~= Seq::<PlcValue>::empty());
    while i < wanted.len()
        invariant
            table.source() == metas@,
            wanted@.map_values(|s: String| s@) == targets,
            targets == requested_names(metas@, match names { Some(ns) => Some(ns@), None => None }),
            0 <= i <= wanted@.len(),
            out@.len() == i,
            out@.map_values(|p: (String, PlcValue)| p.0@) =~= targets.subrange(0, i as int),
            read_vars(state@, metas@, targets.subrange(0, i as int)) == Ok::<Seq<PlcValue>, (int, VarErrorKind)>(
                out@.map_values(|p: (String, PlcValue)| p.1),
            ),
        decreases wanted@.len() - i,
    {
        let ghost pre = targets.subrange(0, i as int);
        let ghost cur = targets.subrange(0, i + 1);
        assert(cur.drop_last() =~= pre);
        assert(targets[i as int] == wanted@[i as int]@);
        assert(cur.last() == wanted@[i as int]@);
        match table.get(&wanted[i]) {
            None => {
                proof {
                    lemma_read_vars_prefix_err(state@, metas@, targets, i + 1);
                }
                let n = wanted[i].clone();
                assert(n@ == targets[i as int]);
                return Err(VarError { kind: VarErrorKind::UnknownVariable, name: n });
            },
            Some(meta) => {
                match decode_value_from_state(state, &meta) {
                    Err(e) => {
                        proof {
                            lemma_meta_lookup(metas@, wanted@[i as int]@);
                            lemma_read_vars_prefix_err(state@, metas@, targets, i + 1);
                        }
                        return Err(e);
                    },
                    Ok(v) => {
                        let ghost old_vals = out@.map_values(|p: (String, PlcValue)| p.1);
                        let ghost old_names = out@.map_values(|p: (String, PlcValue)| p.0@);
                        let n = wanted[i].clone();
                        out.push((n, v));
                        assert(read_var(state@, metas@, cur.last()) == Ok::<PlcValue, VarErrorKind>(v));
                        assert(out@.map_values(|p: (String, PlcValue)| p.1) =~= old_vals.push(v));
                        assert(out@.map_values(|p: (String, PlcValue)| p.0@) =~= old_names.push(targets[i as int]));
                    },
                }
            },
        }
        i = i + 1;
    }
    assert(targets.subrange(0, i as int) =~= targets);
    Ok(out)
}

fn copy_bytes(state: &[u8]) -> (r: Vec<u8>)
    ensures
        r@ == state@,
{
    let mut r: Vec<u8> = Vec::new();
    let mut i: usize = 0;
    while i < state.len()
        invariant
            0 <= i <= state@.len(),
            r@ =~= state@.subrange(0, i as int),
        decreases state@.len() - i,
    {
        r.push(state[i]);
        i = i + 1;
    }
    assert(state@.subrange(0, i as int) =~= state@);
    r
}

/// Applies the updates in order to a copy of the state snapshot `state` and
/// returns the new snapshot. Fails on the first update whose name is unknown
/// or whose value cannot be stored.
pub fn write_var_values(state: &[u8], metas: &[PlcVarMeta], values: &[(String, PlcValue)]) -> (r: Result<
    Vec<u8>,
    VarError,
>)
    ensures
        ({
            let updates = values@.map_values(|u: (String, PlcValue)| update_view(u));
            match r {
                Ok(s2) => write_vars(state@, metas@, updates) == Ok::<Seq<u8>, (int, VarErrorKind)>(s2@),
                Err(e) => write_vars(state@, metas@, updates) is Err && e.kind == write_vars(
                    state@,
                    metas@,
                    updates,
                )->Err_0.1 && e.name@ == updates[write_vars(state@, metas@, updates)->Err_0.0].0,
            }
        }),
{
    let ghost updates = values@.map_values(|u: (String, PlcValue)| update_view(u));
    let table = metadata_map(metas);
    let mut current = copy_bytes(state);
    let mut i: usize = 0;
    assert(updates.subrange(0, 0) =~= Seq::<(Seq<char>, PlcValue)>::empty());
    while i < values.len()
        invariant
            table.source() == metas@,
            updates == values@.map_values(|u: (String, PlcValue)| update_view(u)),
            0 <= i <= values@.len(),
            write_vars(state@, metas@, updates.subrange(0, i as int)) == Ok::<Seq<u8>, (int, VarErrorKind)>(current@),
        decreases values@.len() - i,
    {
        let ghost pre = updates.subrange(0, i as int);
        let ghost cur = updates.subrange(0, i + 1);
        assert(cur.drop_last() =~= pre);
        assert(cur.last() == update_view(values@[i as int]));
        match table.get(&values[i].0) {
            None => {
                proof {
                    lemma_write_vars_prefix_err(state@, metas@, updates, i + 1);
                }
                return Err(VarError { kind: VarErrorKind::UnknownVariable, name: values[i].0.clone() });
            },
            Some(meta) => {
                match encode_value_to_state(&mut current, &meta, values[i].1) {
                    Err(e) => {
                        proof {
                            lemma_meta_lookup(metas@, values@[i as int].0@);
                            lemma_write_vars_prefix_err(state@, metas@, updates, i + 1);
                        }
                        return Err(e);
                    },
                    Ok(()) => {},
                }
            },
        }
        i = i + 1;
    }
    assert(updates.subrange(0, i as int) =~= updates);
    Ok(current)
}

/// The bytes of `a` and of `b` do not overlap.
pub open spec fn vars_disjoint(a: PlcVarMeta, b: PlcVarMeta) -> bool {
    a.offset + a.size <= b.offset || b.offset + b.size <= a.offset
}

pub open spec fn update_names(updates: Seq<(Seq<char>, PlcValue)>) -> Seq<Seq<char>> {
    updates.map_values(|u: (Seq<char>, PlcValue)| u.0)
}

pub open spec fn update_values(updates: Seq<(Seq<char>, PlcValue)>) -> Seq<PlcValue> {
    updates.map_values(|u: (Seq<char>, PlcValue)| u.1)
}

proof fn lemma_read_vars_congruent(s1: Seq<u8>, s2: Seq<u8>, metas: Seq<PlcVarMeta>, names: Seq<Seq<char>>)
    requires
        forall|j: int| 0 <= j < names.len() ==> read_var(s1, metas, #[trigger] names[j]) == read_var(s2, metas, names[j]),
    ensures
        read_vars(s1, metas, names) == read_vars(s2, metas, names),
    decreases names.len(),
{
    if names.len() > 0 {
        let p = names.drop_last();
        assert forall|j: int| 0 <= j < p.len() implies read_var(s1, metas, #[trigger] p[j]) == read_var(s2, metas, p[j]) by {
            assert(p[j] == names[j]);
        }
        lemma_read_vars_congruent(s1, s2, metas, p);
        assert(names.last() == names[names.len() - 1]);
    }
}

/// Reading back the variables just written gives the values written, when the
/// updates name distinct variables whose bytes do not overlap.
pub proof fn lemma_read_back_writes(state: Seq<u8>, metas: Seq<PlcVarMeta>, updates: Seq<(Seq<char>, PlcValue)>)
    requires
        write_vars(state, metas, updates) is Ok,
        update_names(updates).no_duplicates(),
        forall|i: int, j: int|
            0 <= i < j < updates.len() ==> vars_disjoint(
                meta_lookup(metas, #[trigger] updates[i].0)->Some_0,
                meta_lookup(metas, #[trigger] updates[j].0)->Some_0,
            ),
    ensures
        read_vars(write_vars(state, metas, updates)->Ok_0, metas, update_names(updates)) == Ok::<
            Seq<PlcValue>,
            (int, VarErrorKind),
        >(update_values(updates)),
    decreases updates.len(),
{
    let n = updates.len();
    if n == 0 {
        assert(update_names(updates) =~= Seq::<Seq<char>>::empty());
        assert(update_values(updates) =~= Seq::<PlcValue>::empty());
    } else {
        let prev = updates.drop_last();
        let last = updates.last();
        let s1 = write_vars(state, metas, prev)->Ok_0;
        let m = meta_lookup(metas, last.0)->Some_0;
        let s2 = write_vars(state, metas, updates)->Ok_0;
        assert(meta_lookup(metas, last.0) is Some);
        assert(s2 == encode_result(s1, m, last.1)->Ok_0);
        assert(update_names(prev) =~= update_names(updates).drop_last());
        assert(update_values(prev) =~= update_values(updates).drop_last());
        assert(update_names(prev).no_duplicates()) by {
            assert forall|i: int, j: int| 0 <= i < j < update_names(prev).len() implies update_names(prev)[i]
                != update_names(prev)[j] by {
                assert(update_names(prev)[i] == update_names(updates)[i]);
                assert(update_names(prev)[j] == update_names(updates)[j]);
            }
        }
        assert forall|i: int, j: int| 0 <= i < j < prev.len() implies vars_disjoint(
            meta_lookup(metas, #[trigger] prev[i].0)->Some_0,
            meta_lookup(metas, #[trigger] prev[j].0)->Some_0,
        ) by {
            assert(prev[i] == updates[i] && prev[j] == updates[j]);
        }
        lemma_read_back_writes(state, metas, prev);
        lemma_write_frame(s1, m, last.1);
        lemma_read_after_write(s1, m, last.1);
        let names = update_names(prev);
        assert forall|j: int| 0 <= j < names.len() implies read_var(s1, metas, #[trigger] names[j]) == read_var(
            s2,
            metas,
            names[j],
        ) by {
            assert(names[j] == updates[j].0);
            match meta_lookup(metas, names[j]) {
                None => {},
                Some(mj) => {
                    assert(vars_disjoint(mj, m)) by {
                        assert(updates[n - 1] == last);
                    }
                    if mj.offset + mj.size <= s1.len() {
                        assert(s1.subrange(mj.offset as int, mj.offset + mj.size) =~= s2.subrange(
                            mj.offset as int,
                            mj.offset + mj.size,
                        ));
                    }
                    lemma_read_locality(s1, s2, mj);
                },
            }
        }
        lemma_read_vars_congruent(s1, s2, metas, names);
        assert(update_names(updates).last() == last.0);
        assert(update_values(updates) =~= update_values(prev).push(last.1));
    }
}

/// A value read by name has the type that the variable's metadata declares.
pub proof fn lemma_read_has_declared_type(state: Seq<u8>, metas: Seq<PlcVarMeta>, name: Seq<char>)
    requires
        read_var(state, metas, name) is Ok,
    ensures
        meta_lookup(metas, name) matches Some(m) && crate::vars::value_type(read_var(state, metas, name)->Ok_0)
            == m.var_type,
{
}

} // verus!
