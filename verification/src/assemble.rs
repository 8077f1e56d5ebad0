//! Putting a program together from the standard library's modules and the user's file:
//! names declared twice are refused.
use vstd::prelude::*;
use crate::ast::{Item, Program};
use crate::text::{str_eq, push_str, chars_of, string_views, lex_lt, lemma_views_push};
use crate::sema::insert_sorted;

verus! {

/// The name that an item declares; `use` items and implement blocks declare none.
pub open spec fn item_name_of(item: Item) -> Option<Seq<char>> {
    match item {
        Item::FnDef(f) => Some(f.name@),
        Item::StructDef(s) => Some(s.name@),
        Item::EnumDef(e) => Some(e.name@),
        Item::ConstDef(c) => Some(c.name@),
        Item::ModelDef(m) => Some(m.name@),
        Item::ProtoDef(p) => Some(p.name@),
        Item::Interface(i) => Some(i.name@),
        Item::Use(_) => None,
        Item::Implement(_) => None,
    }
}

/// Every item that introduces a name reports it: a function, struct, enum, constant, model,
/// proto or interface declares its own name; `use` items and implement blocks declare none.
pub proof fn lemma_item_name_reported(item: Item)
    ensures
        item matches Item::FnDef(f) ==> item_name_of(item) == Some(f.name@),
        item matches Item::StructDef(s) ==> item_name_of(item) == Some(s.name@),
        item matches Item::EnumDef(e) ==> item_name_of(item) == Some(e.name@),
        item matches Item::ConstDef(c) ==> item_name_of(item) == Some(c.name@),
        item matches Item::ModelDef(m) ==> item_name_of(item) == Some(m.name@),
        item matches Item::ProtoDef(p) ==> item_name_of(item) == Some(p.name@),
        item matches Item::Interface(i) ==> item_name_of(item) == Some(i.name@),
        item is Use || item is Implement ==> item_name_of(item) is None,
{
}

/// Some item of `items` declares `name`.
pub open spec fn declares(items: Seq<Item>, name: Seq<char>) -> bool {
    exists|k: int| 0 <= k < items.len() && item_name_of(#[trigger] items[k]) == Some(name)
}

/// Some pair of `defined_in` has the name `name`.
pub open spec fn recorded(defined_in: Seq<(String, String)>, name: Seq<char>) -> bool {
    exists|k: int| 0 <= k < defined_in.len() && (#[trigger] defined_in[k]).0@ == name
}

/// No item of `items` declares a name that `defined_in` records or that an earlier item
/// declares.
pub open spec fn names_fresh(defined_in: Seq<(String, String)>, items: Seq<Item>) -> bool {
    forall|k: int| 0 <= k < items.len() ==> (item_name_of(#[trigger] items[k]) matches Some(n)
        ==> !recorded(defined_in, n) && !declares(items.take(k), n))
}

/// The name that an item declares, if any.
pub fn item_name(item: &Item) -> (r: Option<&str>)
    ensures
        match item_name_of(*item) {
            Some(n) => r matches Some(s) && s@ == n,
            None => r is None,
        },
{
    match item {
        Item::FnDef(f) => Some(f.name.as_str()),
        Item::StructDef(s) => Some(s.name.as_str()),
        Item::EnumDef(e) => Some(e.name.as_str()),
        Item::ConstDef(c) => Some(c.name.as_str()),
        Item::ModelDef(m) => Some(m.name.as_str()),
        Item::ProtoDef(p) => Some(p.name.as_str()),
        Item::Interface(iface) => Some(iface.name.as_str()),
        Item::Use(_) => None,
        Item::Implement(_) => None,
    }
}

/// Whether some item of `items` declares `name`.
fn declares_name(items: &Vec<Item>, name: &str) -> (r: bool)
    ensures
        r == declares(items@, name@),
{
    let mut k: usize = 0;
    while k < items.len()
        invariant
            k <= items@.len(),
            forall|j: int| 0 <= j < k ==> item_name_of(#[trigger] items@[j]) != Some(name@),
        decreases items.len() - k,
    {
        if let Some(n) = item_name(&items[k]) {
            if str_eq(n, name) {
                return true;
            }
        }
        k += 1;
    }
    false
}

/// The module of the first pair of `defined_in` that has the name `name`.
pub open spec fn first_module(defined_in: Seq<(String, String)>, name: Seq<char>) -> Seq<char> {
    let j = choose|j: int| 0 <= j < defined_in.len() && (#[trigger] defined_in[j]).0@ == name
        && forall|i: int| 0 <= i < j ==> (#[trigger] defined_in[i]).0@ != name;
    defined_in[j].1@
}

/// The message that refuses a second definition of `name`, first made in `first` and
/// again in `label`.
pub open spec fn duplicate_message(name: Seq<char>, first: Seq<char>, label: Seq<char>) -> Seq<char> {
    "duplicate definition `"@ + name + "` in stdlib: defined in both `"@ + first + "` and `"@ + label + "`"@
}

/// The index of the first pair recorded for `name`, if any.
fn recorded_module(defined_in: &Vec<(String, String)>, name: &str) -> (r: Option<usize>)
    ensures
        r is Some <==> recorded(defined_in@, name@),
        r matches Some(j) ==> j < defined_in@.len() && defined_in@[j as int].0@ == name@
            && forall|i: int| 0 <= i < j ==> (#[trigger] defined_in@[i]).0@ != name@,
{
    let mut k: usize = 0;
    while k < defined_in.len()
        invariant
            k <= defined_in@.len(),
            forall|j: int| 0 <= j < k ==> (#[trigger] defined_in@[j]).0@ != name@,
        decreases defined_in.len() - k,
    {
        if str_eq(defined_in[k].0.as_str(), name) {
            return Some(k);
        }
        k += 1;
    }
    None
}

/// Adds the items of one module of the standard library, recording for each declared name
/// the module that declares it. A name declared by an earlier module, or twice in this one,
/// is refused.
pub fn add_module_items(all_items: &mut Vec<Item>, defined_in: &mut Vec<(String, String)>, module_label: &str, items: Vec<Item>)
    -> (r: Result<(), String>)
    ensures
        r is Ok <==> names_fresh(old(defined_in)@, items@),
        r is Ok ==> final(all_items)@ == old(all_items)@ + items@,
        r is Ok ==> forall|n: Seq<char>| declares(items@, n) ==> recorded(final(defined_in)@, n),
        r is Ok ==> forall|n: Seq<char>| recorded(old(defined_in)@, n) ==> recorded(final(defined_in)@, n),
        forall|k: int| 0 <= k < items@.len() && names_fresh(old(defined_in)@, items@.take(k))
            ==> (item_name_of(#[trigger] items@[k]) matches Some(n)
                ==> ((recorded(old(defined_in)@, n) || declares(items@.take(k), n))
                ==> (r matches Err(m) && m@ == duplicate_message(n,
                    if recorded(old(defined_in)@, n) { first_module(old(defined_in)@, n) } else { module_label@ },
                    module_label@)))),
{
    let ghost start = defined_in@;
    let mut k: usize = 0;
    while k < items.len()
        invariant
            k <= items@.len(),
            start == old(defined_in)@,
            *all_items == *old(all_items),
            defined_in@.len() >= start.len(),
            forall|j: int| 0 <= j < start.len() ==> #[trigger] defined_in@[j] == start[j],
            forall|j: int| start.len() <= j < defined_in@.len() ==> (#[trigger] defined_in@[j]).1@ == module_label@,
            names_fresh(start, items@.take(k as int)),
            forall|n: Seq<char>| recorded(defined_in@, n) <==> recorded(start, n) || declares(items@.take(k as int), n),
        decreases items.len() - k,
    {
        proof {
            assert(items@.take(k as int + 1).take(k as int) =~= items@.take(k as int));
        }
        if let Some(name) = item_name(&items[k]) {
            if let Some(j) = recorded_module(defined_in, name) {
                proof {
                    assert(!names_fresh(start, items@)) by {
                        assert(item_name_of(items@[k as int]) == Some(name@));
                        if !recorded(start, name@) {
                            let w = choose|w: int| 0 <= w < k && item_name_of(#[trigger] items@.take(k as int)[w]) == Some(name@);
                            assert(items@.take(k as int)[w] == items@[w]);
                        }
                    }
                    let nm = name@;
                    if recorded(start, nm) {
                        let w = choose|w: int| 0 <= w < start.len() && (#[trigger] start[w]).0@ == nm;
                        assert(defined_in@[w] == start[w]);
                        assert(j < start.len());
                        assert(defined_in@[j as int] == start[j as int]);
                        assert forall|i: int| 0 <= i < j implies (#[trigger] start[i]).0@ != nm by {
                            assert(defined_in@[i] == start[i]);
                        }
                        let c = choose|c: int| 0 <= c < start.len() && (#[trigger] start[c]).0@ == nm
                            && forall|i: int| 0 <= i < c ==> (#[trigger] start[i]).0@ != nm;
                        assert(c == j);
                        assert(first_module(start, nm) == defined_in@[j as int].1@);
                    } else {
                        if j < start.len() {
                            assert(defined_in@[j as int] == start[j as int]);
                        }
                        assert(defined_in@[j as int].1@ == module_label@);
                    }
                    assert forall|q: int| 0 <= q < items@.len() && #[trigger] names_fresh(start, items@.take(q))
                        implies q <= k by {
                        if q > k {
                            assert(items@.take(q)[k as int] == items@[k as int]);
                            assert(items@.take(q).take(k as int) =~= items@.take(k as int));
                        }
                    }
                    assert forall|q: int| 0 <= q < k && names_fresh(start, items@.take(q)) implies
                        !(item_name_of(#[trigger] items@[q]) matches Some(n2) && (recorded(start, n2) || declares(items@.take(q), n2))) by {
                        assert(items@.take(k as int)[q] == items@[q]);
                        assert(items@.take(k as int).take(q) =~= items@.take(q));
                    }
                }
                let mut msg = String::new();
                push_str(&mut msg, "duplicate definition `");
                push_str(&mut msg, name);
                push_str(&mut msg, "` in stdlib: defined in both `");
                push_str(&mut msg, defined_in[j].1.as_str());
                push_str(&mut msg, "` and `");
                push_str(&mut msg, module_label);
                push_str(&mut msg, "`");
                return Err(msg);
            }
            let ghost nm = name@;
            let ghost before = defined_in@;
            defined_in.push((name.to_string(), module_label.to_string()));
            proof {
                assert(defined_in@[defined_in@.len() - 1].0@ == nm);
                let prev = defined_in@.drop_last();
                assert(prev == before);
                assert forall|n: Seq<char>| #[trigger] recorded(defined_in@, n) implies recorded(start, n) || declares(items@.take(k as int + 1), n) by {
                    let w = choose|w: int| 0 <= w < defined_in@.len() && (#[trigger] defined_in@[w]).0@ == n;
                    if w < defined_in@.len() - 1 {
                        assert(prev[w] == defined_in@[w]);
                        assert(recorded(before, n));
                        if declares(items@.take(k as int), n) {
                            let v = choose|v: int| 0 <= v < k && item_name_of(#[trigger] items@.take(k as int)[v]) == Some(n);
                            assert(items@.take(k as int + 1)[v] == items@.take(k as int)[v]);
                        }
                    } else {
                        assert(items@.take(k as int + 1)[k as int] == items@[k as int]);
                    }
                }
                assert forall|n: Seq<char>| recorded(start, n) || declares(items@.take(k as int + 1), n) implies #[trigger] recorded(defined_in@, n) by {
                    if recorded(start, n) {
                        let w = choose|w: int| 0 <= w < start.len() && (#[trigger] start[w]).0@ == n;
                        assert(defined_in@[w] == start[w]);
                    } else {
                        let v = choose|v: int| 0 <= v < k + 1 && item_name_of(#[trigger] items@.take(k as int + 1)[v]) == Some(n);
                        if v < k {
                            assert(items@.take(k as int)[v] == items@.take(k as int + 1)[v]);
                            assert(declares(items@.take(k as int), n));
                            assert(recorded(before, n));
                            let w = choose|w: int| 0 <= w < before.len() && (#[trigger] before[w]).0@ == n;
                            assert(defined_in@[w] == before[w]);
                        } else {
                            assert(defined_in@[defined_in@.len() - 1].0@ == n);
                        }
                    }
                }
            }
        }
        proof {
            assert forall|q: int| 0 <= q < k + 1 implies (item_name_of(#[trigger] items@.take(k as int + 1)[q]) matches Some(n)
                ==> !recorded(start, n) && !declares(items@.take(k as int + 1).take(q), n)) by {
                if q < k {
                    assert(items@.take(k as int + 1)[q] == items@.take(k as int)[q]);
                    assert(items@.take(k as int + 1).take(q) =~= items@.take(k as int).take(q));
                }
            }
        }
        k += 1;
    }
    proof {
        assert(items@.take(items@.len() as int) =~= items@);
    }
    let mut rest = items;
    all_items.append(&mut rest);
    Ok(())
}

/// Puts the standard library's items before the user's. A user item that declares a name
/// the standard library declares is refused.
pub fn merge_with_conflict_check(stdlib_items: Vec<Item>, user_items: Vec<Item>, user_filename: &str) -> (r: Result<Program, String>)
    ensures
        r is Ok <==> forall|k: int| 0 <= k < user_items@.len()
            ==> (item_name_of(#[trigger] user_items@[k]) matches Some(n) ==> !declares(stdlib_items@, n)),
        r matches Ok(p) ==> p.items@ == stdlib_items@ + user_items@,
        forall|k: int| 0 <= k < user_items@.len() && (forall|j: int| 0 <= j < k
                ==> (item_name_of(#[trigger] user_items@[j]) matches Some(n) ==> !declares(stdlib_items@, n)))
            ==> (item_name_of(#[trigger] user_items@[k]) matches Some(n) ==> (declares(stdlib_items@, n)
                ==> (r matches Err(m) && m@ == "error: `"@ + n + "` in "@ + user_filename@
                    + " conflicts with a standard library definition of the same name."@))),
        forall|k: int, j: int| 0 <= k < user_items@.len() && 0 <= j < stdlib_items@.len()
            && #[trigger] user_items@[k] is EnumDef
            && item_name_of(#[trigger] stdlib_items@[j]) == Some(user_items@[k]->EnumDef_0.name@) ==> r is Err,
        forall|k: int, j: int| 0 <= k < user_items@.len() && 0 <= j < stdlib_items@.len()
            && #[trigger] user_items@[k] is EnumDef && #[trigger] stdlib_items@[j] is EnumDef
            && user_items@[k]->EnumDef_0.name@ == stdlib_items@[j]->EnumDef_0.name@ ==> r is Err,
{
    let mut k: usize = 0;
    while k < user_items.len()
        invariant
            k <= user_items@.len(),
            forall|j: int| 0 <= j < k ==> (item_name_of(#[trigger] user_items@[j]) matches Some(n) ==> !declares(stdlib_items@, n)),
        decreases user_items.len() - k,
    {
        if let Some(name) = item_name(&user_items[k]) {
            if declares_name(&stdlib_items, name) {
                let mut msg = String::new();
                push_str(&mut msg, "error: `");
                push_str(&mut msg, name);
                push_str(&mut msg, "` in ");
                push_str(&mut msg, user_filename);
                push_str(&mut msg, " conflicts with a standard library definition of the same name.");
                return Err(msg);
            }
        }
        k += 1;
    }
    let mut all_items = stdlib_items;
    let mut user = user_items;
    all_items.append(&mut user);
    Ok(Program { items: all_items })
}

/// A file of the library: its name ends in `.xiyi`.
pub open spec fn is_module_file(n: Seq<char>) -> bool {
    &&& n.len() >= 5
    &&& n[n.len() - 5] == '.' && n[n.len() - 4] == 'x' && n[n.len() - 3] == 'i'
    &&& n[n.len() - 2] == 'y' && n[n.len() - 1] == 'i'
}

/// Whether a file name ends in `.xiyi`.
fn ends_in_xiyi(n: &str) -> (r: bool)
    ensures
        r == is_module_file(n@),
{
    let v = chars_of(n);
    let len = v.len();
    len >= 5 && v[len - 5] == '.' && v[len - 4] == 'x' && v[len - 3] == 'i' && v[len - 2] == 'y' && v[len - 1] == 'i'
}

/// The order in which the library's files are read: its files (names ending in `.xiyi`) other
/// than `lib.xiyi` in name order, then `lib.xiyi` where it is among them.
pub fn module_file_order(names: &Vec<String>) -> (r: Vec<String>)
    ensures
        forall|t: Seq<char>| #[trigger] string_views(r@).contains(t)
            <==> string_views(names@).contains(t) && is_module_file(t),
        ({
            let m = if string_views(names@).contains("lib.xiyi"@) { r@.len() - 1 } else { r@.len() as int };
            &&& 0 <= m
            &&& forall|i: int, l: int| 0 <= i < l < m ==> !lex_lt(#[trigger] r@[l]@, #[trigger] r@[i]@)
            &&& forall|i: int| 0 <= i < m ==> (#[trigger] r@[i])@ != "lib.xiyi"@
            &&& m < r@.len() ==> r@[m]@ == "lib.xiyi"@
        }),
        string_views(names@).no_duplicates() ==> string_views(r@).no_duplicates(),
{
    let mut mods: Vec<String> = Vec::new();
    let mut lib: Option<String> = None;
    let mut k: usize = 0;
    proof {
        reveal_strlit("lib.xiyi");
    }
    while k < names.len()
        invariant
            k <= names@.len(),
            forall|i: int, l: int| 0 <= i < l < mods@.len() ==> !lex_lt(#[trigger] mods@[l]@, #[trigger] mods@[i]@),
            forall|t: Seq<char>| #[trigger] string_views(mods@).contains(t)
                <==> string_views(names@).take(k as int).contains(t) && is_module_file(t) && t != "lib.xiyi"@,
            lib is Some <==> string_views(names@).take(k as int).contains("lib.xiyi"@),
            lib matches Some(x) ==> x@ == "lib.xiyi"@,
            string_views(names@).no_duplicates() ==> string_views(mods@).no_duplicates(),
        decreases names.len() - k,
    {
        let n = &names[k];
        let ghost tk = string_views(names@).take(k as int + 1);
        proof {
            assert(tk =~= string_views(names@).take(k as int).push(n@));
        }
        if str_eq(n.as_str(), "lib.xiyi") {
            lib = Some(n.clone());
        } else if ends_in_xiyi(n.as_str()) {
            proof {
                if string_views(names@).no_duplicates() && string_views(mods@).contains(n@) {
                    let w = choose|w: int| 0 <= w < k && #[trigger] string_views(names@).take(k as int)[w] == n@;
                    assert(string_views(names@)[w] == string_views(names@)[k as int]);
                }
            }
            insert_sorted(&mut mods, n.clone());
        }
        proof {
            assert forall|t: Seq<char>| #[trigger] tk.contains(t)
                <==> string_views(names@).take(k as int).contains(t) || t == n@ by {
                if tk.contains(t) {
                    let w = choose|w: int| 0 <= w < tk.len() && #[trigger] tk[w] == t;
                    if w < k {
                        assert(string_views(names@).take(k as int)[w] == t);
                    }
                }
                if string_views(names@).take(k as int).contains(t) {
                    let w = choose|w: int| 0 <= w < k && #[trigger] string_views(names@).take(k as int)[w] == t;
                    assert(tk[w] == t);
                }
                if t == n@ {
                    assert(tk[k as int] == t);
                }
            }
        }
        k += 1;
    }
    proof {
        assert(string_views(names@).take(names@.len() as int) =~= string_views(names@));
    }
    let ghost sorted = mods@;
    if let Some(x) = lib {
        mods.push(x);
        proof {
            lemma_views_push(sorted, mods@.last());
            assert forall|t: Seq<char>| #[trigger] string_views(mods@).contains(t)
                <==> string_views(names@).contains(t) && is_module_file(t) by {
                if string_views(mods@).contains(t) && t != "lib.xiyi"@ {
                    let w = choose|w: int| 0 <= w < mods@.len() && #[trigger] string_views(mods@)[w] == t;
                    assert(string_views(sorted)[w] == t);
                }
                if string_views(sorted).contains(t) {
                    let w = choose|w: int| 0 <= w < sorted.len() && #[trigger] string_views(sorted)[w] == t;
                    assert(string_views(mods@)[w] == t);
                }
                if t == "lib.xiyi"@ {
                    assert(string_views(mods@)[sorted.len() as int] == t);
                }
            }
            assert forall|i: int| 0 <= i < sorted.len() implies (#[trigger] mods@[i])@ != "lib.xiyi"@ by {
                assert(string_views(sorted)[i] == sorted[i]@);
                assert(string_views(sorted).contains(sorted[i]@));
            }
            if string_views(names@).no_duplicates() {
                assert forall|i: int, l: int| 0 <= i < string_views(mods@).len() && 0 <= l < string_views(mods@).len() && i != l
                    implies string_views(mods@)[i] != string_views(mods@)[l] by {
                    if i < sorted.len() && l < sorted.len() {
                        assert(string_views(mods@)[i] == string_views(sorted)[i]);
                        assert(string_views(mods@)[l] == string_views(sorted)[l]);
                    } else if i < sorted.len() {
                        assert(string_views(sorted)[i] == sorted[i]@);
                        assert(string_views(sorted).contains(sorted[i]@));
                    } else if l < sorted.len() {
                        assert(string_views(sorted)[l] == sorted[l]@);
                        assert(string_views(sorted).contains(sorted[l]@));
                    }
                }
            }
        }
    } else {
        proof {
            assert forall|i: int| 0 <= i < mods@.len() implies (#[trigger] mods@[i])@ != "lib.xiyi"@ by {
                assert(string_views(mods@)[i] == mods@[i]@);
                assert(string_views(mods@).contains(mods@[i]@));
            }
        }
    }
    mods
}

} // verus!
