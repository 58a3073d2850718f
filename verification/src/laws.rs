//! The laws the parser obeys, each proved from the model in
//! [`crate::model`] that the executable code is verified against.

use vstd::prelude::*;

use crate::model::{
    canon, first_pass, help_requested, parse_model, resolve_list, resolve_one, resolve_pos,
    typed_parse, zero_value, DeclModel, ErrModel, ParseModel, ParserModel, ValueModel,
};

verus! {

/// Resolution never touches an entry under a key that no declaration in the
/// list owns: whatever the accumulator held there, the result holds there.
proof fn lemma_resolve_list_frame(
    decls: Seq<DeclModel>,
    tok: Map<Seq<char>, Seq<char>>,
    m0: Map<Seq<char>, ValueModel>,
    x: Seq<char>,
)
    requires
        resolve_list(decls, tok, m0) is Ok,
        forall|j: int| 0 <= j < decls.len() ==> canon(decls[j].long) != x,
    ensures
        resolve_list(decls, tok, m0) matches Ok(m) && m.contains_key(x) == m0.contains_key(x) && (
        m0.contains_key(x) ==> m[x] == m0[x]),
    decreases decls.len(),
{
    if decls.len() > 0 {
        match resolve_one(decls[0], tok) {
            Ok(v) => {
                let m1 = m0.insert(canon(decls[0].long), v);
                assert(forall|j: int| #![trigger decls.drop_first()[j]]
                    0 <= j < decls.drop_first().len() ==> canon(decls.drop_first()[j].long) != x);
                lemma_resolve_list_frame(decls.drop_first(), tok, m1, x);
            },
            Err(_) => {},
        }
    }
}

/// When a whole list resolves, each declaration in it resolved, and its value
/// stands in the result under its canonical long name, provided no later
/// declaration in the list shares that name.
proof fn lemma_resolve_list_entry(
    decls: Seq<DeclModel>,
    tok: Map<Seq<char>, Seq<char>>,
    m0: Map<Seq<char>, ValueModel>,
    k: int,
)
    requires
        resolve_list(decls, tok, m0) is Ok,
        0 <= k < decls.len(),
        forall|j: int| k < j < decls.len() ==> canon(decls[j].long) != canon(decls[k].long),
    ensures
        resolve_one(decls[k], tok) matches Ok(v) && resolve_list(decls, tok, m0) matches Ok(m)
            && m.contains_key(canon(decls[k].long)) && m[canon(decls[k].long)] == v,
    decreases decls.len(),
{
    match resolve_one(decls[0], tok) {
        Ok(v0) => {
            let m1 = m0.insert(canon(decls[0].long), v0);
            if k == 0 {
                assert(forall|j: int| #![trigger decls.drop_first()[j]]
                    0 <= j < decls.drop_first().len() ==> canon(decls.drop_first()[j].long)
                        != canon(decls[0].long));
                lemma_resolve_list_frame(decls.drop_first(), tok, m1, canon(decls[0].long));
            } else {
                assert(decls.drop_first()[k - 1] == decls[k]);
                assert(forall|j: int| #![trigger decls.drop_first()[j]]
                    k - 1 < j < decls.drop_first().len() ==> canon(decls.drop_first()[j].long)
                        != canon(decls.drop_first()[k - 1].long));
                lemma_resolve_list_entry(decls.drop_first(), tok, m1, k - 1);
            }
        },
        Err(_) => {},
    }
}

/// Positional consumption never touches an entry under a key that no
/// positional declaration owns.
proof fn lemma_resolve_pos_frame(
    decls: Seq<DeclModel>,
    args: Seq<Seq<char>>,
    i: int,
    tok0: Map<Seq<char>, Seq<char>>,
    m0: Map<Seq<char>, ValueModel>,
    x: Seq<char>,
)
    requires
        resolve_pos(decls, args, i, tok0, m0) is Ok,
        forall|j: int| 0 <= j < decls.len() ==> canon(decls[j].long) != x,
    ensures
        resolve_pos(decls, args, i, tok0, m0) matches Ok(pr) && pr.1.contains_key(x)
            == m0.contains_key(x) && (m0.contains_key(x) ==> pr.1[x] == m0[x]),
    decreases decls.len(),
{
    if decls.len() > 0 {
        match typed_parse(decls[0].dtype, args[i]) {
            Some(v) => {
                assert(forall|j: int| #![trigger decls.drop_first()[j]]
                    0 <= j < decls.drop_first().len() ==> canon(decls.drop_first()[j].long) != x);
                lemma_resolve_pos_frame(
                    decls.drop_first(),
                    args,
                    i + 1,
                    tok0.insert(decls[0].long, args[i]),
                    m0.insert(canon(decls[0].long), v),
                    x,
                );
            },
            None => {},
        }
    }
}

/// When positional consumption succeeds, declaration `k` took the raw token
/// at position `i + k`, and the typed reading of exactly that token stands in
/// the output under the declaration's canonical long name, provided no later
/// positional declaration shares that name.
proof fn lemma_resolve_pos_entry(
    decls: Seq<DeclModel>,
    args: Seq<Seq<char>>,
    i: int,
    tok0: Map<Seq<char>, Seq<char>>,
    m0: Map<Seq<char>, ValueModel>,
    k: int,
)
    requires
        resolve_pos(decls, args, i, tok0, m0) is Ok,
        0 <= k < decls.len(),
        forall|j: int| k < j < decls.len() ==> canon(decls[j].long) != canon(decls[k].long),
    ensures
        typed_parse(decls[k].dtype, args[i + k]) matches Some(v) && resolve_pos(
            decls,
            args,
            i,
            tok0,
            m0,
        ) matches Ok(pr) && pr.1.contains_key(canon(decls[k].long)) && pr.1[canon(decls[k].long)]
            == v,
    decreases decls.len(),
{
    match typed_parse(decls[0].dtype, args[i]) {
        Some(v0) => {
            let tok1 = tok0.insert(decls[0].long, args[i]);
            let m1 = m0.insert(canon(decls[0].long), v0);
            if k == 0 {
                assert(forall|j: int| #![trigger decls.drop_first()[j]]
                    0 <= j < decls.drop_first().len() ==> canon(decls.drop_first()[j].long)
                        != canon(decls[0].long));
                lemma_resolve_pos_frame(
                    decls.drop_first(),
                    args,
                    i + 1,
                    tok1,
                    m1,
                    canon(decls[0].long),
                );
            } else {
                assert(decls.drop_first()[k - 1] == decls[k]);
                assert(forall|j: int| #![trigger decls.drop_first()[j]]
                    k - 1 < j < decls.drop_first().len() ==> canon(decls.drop_first()[j].long)
                        != canon(decls.drop_first()[k - 1].long));
                lemma_resolve_pos_entry(decls.drop_first(), args, i + 1, tok1, m1, k - 1);
            }
        },
        None => {},
    }
}

/// Resolution only adds entries: whatever the accumulator already held under
/// any key is still present in the result.
proof fn lemma_resolve_list_keeps(
    decls: Seq<DeclModel>,
    tok: Map<Seq<char>, Seq<char>>,
    m0: Map<Seq<char>, ValueModel>,
    x: Seq<char>,
)
    requires
        resolve_list(decls, tok, m0) is Ok,
        m0.contains_key(x),
    ensures
        resolve_list(decls, tok, m0) matches Ok(m) && m.contains_key(x),
    decreases decls.len(),
{
    if decls.len() > 0 {
        match resolve_one(decls[0], tok) {
            Ok(v) => {
                lemma_resolve_list_keeps(
                    decls.drop_first(),
                    tok,
                    m0.insert(canon(decls[0].long), v),
                    x,
                );
            },
            Err(_) => {},
        }
    }
}

/// Every declaration of a list that resolves stands in the result under its
/// canonical long name.
proof fn lemma_resolve_list_domain(
    decls: Seq<DeclModel>,
    tok: Map<Seq<char>, Seq<char>>,
    m0: Map<Seq<char>, ValueModel>,
    k: int,
)
    requires
        resolve_list(decls, tok, m0) is Ok,
        0 <= k < decls.len(),
    ensures
        resolve_list(decls, tok, m0) matches Ok(m) && m.contains_key(canon(decls[k].long)),
    decreases decls.len(),
{
    match resolve_one(decls[0], tok) {
        Ok(v) => {
            let m1 = m0.insert(canon(decls[0].long), v);
            if k == 0 {
                lemma_resolve_list_keeps(decls.drop_first(), tok, m1, canon(decls[0].long));
            } else {
                assert(decls.drop_first()[k - 1] == decls[k]);
                lemma_resolve_list_domain(decls.drop_first(), tok, m1, k - 1);
            }
        },
        Err(_) => {},
    }
}

/// Positional consumption, likewise, only adds entries.
proof fn lemma_resolve_pos_keeps(
    decls: Seq<DeclModel>,
    args: Seq<Seq<char>>,
    i: int,
    tok0: Map<Seq<char>, Seq<char>>,
    m0: Map<Seq<char>, ValueModel>,
    x: Seq<char>,
)
    requires
        resolve_pos(decls, args, i, tok0, m0) is Ok,
        m0.contains_key(x),
    ensures
        resolve_pos(decls, args, i, tok0, m0) matches Ok(pr) && pr.1.contains_key(x),
    decreases decls.len(),
{
    if decls.len() > 0 {
        match typed_parse(decls[0].dtype, args[i]) {
            Some(v) => {
                lemma_resolve_pos_keeps(
                    decls.drop_first(),
                    args,
                    i + 1,
                    tok0.insert(decls[0].long, args[i]),
                    m0.insert(canon(decls[0].long), v),
                    x,
                );
            },
            None => {},
        }
    }
}

/// Every positional declaration that was consumed stands in the output under
/// its canonical long name.
proof fn lemma_resolve_pos_domain(
    decls: Seq<DeclModel>,
    args: Seq<Seq<char>>,
    i: int,
    tok0: Map<Seq<char>, Seq<char>>,
    m0: Map<Seq<char>, ValueModel>,
    k: int,
)
    requires
        resolve_pos(decls, args, i, tok0, m0) is Ok,
        0 <= k < decls.len(),
    ensures
        resolve_pos(decls, args, i, tok0, m0) matches Ok(pr) && pr.1.contains_key(
            canon(decls[k].long),
        ),
    decreases decls.len(),
{
    match typed_parse(decls[0].dtype, args[i]) {
        Some(v) => {
            let tok1 = tok0.insert(decls[0].long, args[i]);
            let m1 = m0.insert(canon(decls[0].long), v);
            if k == 0 {
                lemma_resolve_pos_keeps(decls.drop_first(), args, i + 1, tok1, m1, canon(decls[0].long));
            } else {
                assert(decls.drop_first()[k - 1] == decls[k]);
                lemma_resolve_pos_domain(decls.drop_first(), args, i + 1, tok1, m1, k - 1);
            }
        },
        None => {},
    }
}

/// Law: never partial on success. A resolved map holds an entry for every
/// declaration — positional, required and optional alike — under its
/// canonical long name.
pub proof fn lemma_parse_complete(p: ParserModel, args: Seq<Seq<char>>)
    ensures
        parse_model(p, args) matches ParseModel::Resolved(m) ==> {
            &&& forall|k: int|
                0 <= k < p.positionals.len() ==> m.contains_key(canon(p.positionals[k].long))
            &&& forall|k: int|
                0 <= k < p.required.len() ==> m.contains_key(canon(p.required[k].long))
            &&& forall|k: int|
                0 <= k < p.optionals.len() ==> m.contains_key(canon(p.optionals[k].long))
        },
{
    if parse_model(p, args) is Resolved {
        let pr = first_pass(p, args)->Ok_0;
        let out1 = resolve_list(p.required, pr.0, pr.1)->Ok_0;
        assert forall|k: int|
            0 <= k < p.positionals.len() implies resolve_list(p.optionals, pr.0, out1)->Ok_0
            .contains_key(canon(p.positionals[k].long)) by {
            let key = canon(p.positionals[k].long);
            lemma_resolve_pos_domain(p.positionals, args, 1, Map::empty(), Map::empty(), k);
            lemma_resolve_list_keeps(p.required, pr.0, pr.1, key);
            lemma_resolve_list_keeps(p.optionals, pr.0, out1, key);
        }
        assert forall|k: int|
            0 <= k < p.required.len() implies resolve_list(p.optionals, pr.0, out1)->Ok_0
            .contains_key(canon(p.required[k].long)) by {
            lemma_resolve_list_domain(p.required, pr.0, pr.1, k);
            lemma_resolve_list_keeps(p.optionals, pr.0, out1, canon(p.required[k].long));
        }
        assert forall|k: int|
            0 <= k < p.optionals.len() implies resolve_list(p.optionals, pr.0, out1)->Ok_0
            .contains_key(canon(p.optionals[k].long)) by {
            lemma_resolve_list_domain(p.optionals, pr.0, out1, k);
        }
    }
}

/// Law: a supplied value decides the resolved entry. When resolution of a
/// list succeeds and the token map supplies declaration `k` — under its short
/// name, or failing that its long name — the result's entry under the
/// declaration's canonical long name is exactly the typed reading of the
/// supplied raw value, provided no later declaration in the list shares that
/// name. In particular the reading succeeded.
pub proof fn lemma_supplied_value_entry(
    decls: Seq<DeclModel>,
    tok: Map<Seq<char>, Seq<char>>,
    m0: Map<Seq<char>, ValueModel>,
    k: int,
)
    requires
        resolve_list(decls, tok, m0) is Ok,
        0 <= k < decls.len(),
        forall|j: int| k < j < decls.len() ==> canon(decls[j].long) != canon(decls[k].long),
        tok.contains_key(decls[k].short) || tok.contains_key(decls[k].long),
    ensures
        ({
            let v = if tok.contains_key(decls[k].short) {
                tok[decls[k].short]
            } else {
                tok[decls[k].long]
            };
            typed_parse(decls[k].dtype, v) matches Some(val) && resolve_list(decls, tok, m0)
                matches Ok(m) && m.contains_key(canon(decls[k].long)) && m[canon(decls[k].long)]
                == val
        }),
{
    lemma_resolve_list_entry(decls, tok, m0, k);
}

/// Law: an optional declaration neither supplied nor defaulted resolves to
/// the type's zero value.
pub proof fn lemma_optional_zero(d: DeclModel, tok: Map<Seq<char>, Seq<char>>)
    requires
        !d.required,
        d.default is None,
        !tok.contains_key(d.short),
        !tok.contains_key(d.long),
    ensures
        resolve_one(d, tok) == Ok::<ValueModel, ErrModel>(zero_value(d.dtype)),
{
}

/// Law: when resolution of a list succeeds, an optional declaration in it
/// neither supplied nor defaulted stands in the result as the type's zero
/// value, under its canonical long name, provided no later declaration in the
/// list shares that name.
pub proof fn lemma_optional_zero_entry(
    decls: Seq<DeclModel>,
    tok: Map<Seq<char>, Seq<char>>,
    m0: Map<Seq<char>, ValueModel>,
    k: int,
)
    requires
        resolve_list(decls, tok, m0) is Ok,
        0 <= k < decls.len(),
        forall|j: int| k < j < decls.len() ==> canon(decls[j].long) != canon(decls[k].long),
        !decls[k].required,
        decls[k].default is None,
        !tok.contains_key(decls[k].short),
        !tok.contains_key(decls[k].long),
    ensures
        resolve_list(decls, tok, m0) matches Ok(m) && m.contains_key(canon(decls[k].long))
            && m[canon(decls[k].long)] == zero_value(decls[k].dtype),
{
    lemma_resolve_list_entry(decls, tok, m0, k);
    lemma_optional_zero(decls[k], tok);
}

/// Law: a required declaration neither supplied nor defaulted makes the
/// resolution of its list fail.
pub proof fn lemma_missing_required_fails(
    decls: Seq<DeclModel>,
    tok: Map<Seq<char>, Seq<char>>,
    m0: Map<Seq<char>, ValueModel>,
    k: int,
)
    requires
        0 <= k < decls.len(),
        decls[k].required,
        decls[k].default is None,
        !tok.contains_key(decls[k].short),
        !tok.contains_key(decls[k].long),
    ensures
        resolve_list(decls, tok, m0) is Err,
    decreases decls.len(),
{
    match resolve_one(decls[0], tok) {
        Ok(v0) => {
            assert(k != 0);
            assert(decls.drop_first()[k - 1] == decls[k]);
            lemma_missing_required_fails(
                decls.drop_first(),
                tok,
                m0.insert(canon(decls[0].long), v0),
                k - 1,
            );
        },
        Err(_) => {},
    }
}

/// Law: the failure names the declaration. When every declaration before `k`
/// in the list resolves, and `k` is required, unsupplied and undefaulted, the
/// list's resolution fails with exactly the missing-required failure carrying
/// `k`'s canonical long name.
pub proof fn lemma_missing_required_error(
    decls: Seq<DeclModel>,
    tok: Map<Seq<char>, Seq<char>>,
    m0: Map<Seq<char>, ValueModel>,
    k: int,
)
    requires
        0 <= k < decls.len(),
        decls[k].required,
        decls[k].default is None,
        !tok.contains_key(decls[k].short),
        !tok.contains_key(decls[k].long),
        forall|j: int| 0 <= j < k ==> resolve_one(decls[j], tok) is Ok,
    ensures
        resolve_list(decls, tok, m0) == Err::<Map<Seq<char>, ValueModel>, ErrModel>(
            ErrModel::MissingRequired(canon(decls[k].long)),
        ),
    decreases decls.len(),
{
    if k == 0 {
        assert(resolve_one(decls[0], tok) == Err::<ValueModel, ErrModel>(
            ErrModel::MissingRequired(canon(decls[0].long)),
        ));
    } else {
        match resolve_one(decls[0], tok) {
            Ok(v0) => {
                assert(decls.drop_first()[k - 1] == decls[k]);
                assert(forall|j: int|
                    0 <= j < k - 1 ==> resolve_one(decls.drop_first()[j], tok) is Ok);
                lemma_missing_required_error(
                    decls.drop_first(),
                    tok,
                    m0.insert(canon(decls[0].long), v0),
                    k - 1,
                );
            },
            Err(_) => {
                assert(resolve_one(decls[0], tok) is Ok);
            },
        }
    }
}

/// Law: a required declaration left unsupplied and undefaulted by the token
/// map of the first pass makes the whole parse fail — no resolved map comes
/// out of it.
pub proof fn lemma_parse_missing_required(p: ParserModel, args: Seq<Seq<char>>, k: int)
    requires
        0 <= k < p.required.len(),
        p.required[k].required,
        p.required[k].default is None,
    ensures
        ({
            let fp = first_pass(p, args);
            (fp matches Ok(pr) && !help_requested(args) && !pr.0.contains_key(p.required[k].short)
                && !pr.0.contains_key(p.required[k].long)) ==> parse_model(p, args) is Fail
        }),
{
    let fp = first_pass(p, args);
    if !help_requested(args) && fp is Ok {
        let pr = fp->Ok_0;
        if !pr.0.contains_key(p.required[k].short) && !pr.0.contains_key(p.required[k].long) {
            lemma_missing_required_fails(p.required, pr.0, pr.1, k);
        }
    }
}

/// Law: a supplied value decides the whole parse's entry for a required
/// declaration. When the parse resolves and the first pass's token map
/// supplies required declaration `k`, the resolved map's entry under the
/// declaration's canonical long name is exactly the typed reading of the
/// supplied raw value, provided no later required and no optional declaration
/// shares that name.
pub proof fn lemma_parse_supplied_required(p: ParserModel, args: Seq<Seq<char>>, k: int)
    requires
        0 <= k < p.required.len(),
        forall|j: int|
            k < j < p.required.len() ==> canon(p.required[j].long) != canon(p.required[k].long),
        forall|j: int|
            0 <= j < p.optionals.len() ==> canon(p.optionals[j].long) != canon(p.required[k].long),
    ensures
        ({
            let d = p.required[k];
            let key = canon(d.long);
            parse_model(p, args) matches ParseModel::Resolved(m) ==> (first_pass(p, args)
                matches Ok(pr) ==> ((pr.0.contains_key(d.short) || pr.0.contains_key(d.long)) ==> ({
                let v = if pr.0.contains_key(d.short) {
                    pr.0[d.short]
                } else {
                    pr.0[d.long]
                };
                typed_parse(d.dtype, v) matches Some(val) && m.contains_key(key) && m[key] == val
            })))
        }),
{
    let d = p.required[k];
    let key = canon(d.long);
    if parse_model(p, args) is Resolved {
        let pr = first_pass(p, args)->Ok_0;
        if pr.0.contains_key(d.short) || pr.0.contains_key(d.long) {
            let out1 = resolve_list(p.required, pr.0, pr.1)->Ok_0;
            lemma_supplied_value_entry(p.required, pr.0, pr.1, k);
            lemma_resolve_list_frame(p.optionals, pr.0, out1, key);
        }
    }
}

/// Law: a supplied value decides the whole parse's entry for an optional
/// declaration, in the same way, provided no later optional declaration
/// shares its canonical long name.
pub proof fn lemma_parse_supplied_optional(p: ParserModel, args: Seq<Seq<char>>, k: int)
    requires
        0 <= k < p.optionals.len(),
        forall|j: int|
            k < j < p.optionals.len() ==> canon(p.optionals[j].long) != canon(p.optionals[k].long),
    ensures
        ({
            let d = p.optionals[k];
            let key = canon(d.long);
            parse_model(p, args) matches ParseModel::Resolved(m) ==> (first_pass(p, args)
                matches Ok(pr) ==> ((pr.0.contains_key(d.short) || pr.0.contains_key(d.long)) ==> ({
                let v = if pr.0.contains_key(d.short) {
                    pr.0[d.short]
                } else {
                    pr.0[d.long]
                };
                typed_parse(d.dtype, v) matches Some(val) && m.contains_key(key) && m[key] == val
            })))
        }),
{
    let d = p.optionals[k];
    if parse_model(p, args) is Resolved {
        let pr = first_pass(p, args)->Ok_0;
        if pr.0.contains_key(d.short) || pr.0.contains_key(d.long) {
            let out1 = resolve_list(p.required, pr.0, pr.1)->Ok_0;
            lemma_supplied_value_entry(p.optionals, pr.0, out1, k);
        }
    }
}

/// Law: an optional declaration that the first pass leaves unsupplied and
/// that carries no default resolves, in the whole parse, to the type's zero
/// value, provided no later optional declaration shares its canonical long
/// name.
pub proof fn lemma_parse_optional_zero(p: ParserModel, args: Seq<Seq<char>>, k: int)
    requires
        0 <= k < p.optionals.len(),
        forall|j: int|
            k < j < p.optionals.len() ==> canon(p.optionals[j].long) != canon(p.optionals[k].long),
        !p.optionals[k].required,
        p.optionals[k].default is None,
    ensures
        ({
            let d = p.optionals[k];
            let key = canon(d.long);
            parse_model(p, args) matches ParseModel::Resolved(m) ==> (first_pass(p, args)
                matches Ok(pr) ==> ((!pr.0.contains_key(d.short) && !pr.0.contains_key(d.long))
                ==> m.contains_key(key) && m[key] == zero_value(d.dtype)))
        }),
{
    let d = p.optionals[k];
    if parse_model(p, args) is Resolved {
        let pr = first_pass(p, args)->Ok_0;
        if !pr.0.contains_key(d.short) && !pr.0.contains_key(d.long) {
            let out1 = resolve_list(p.required, pr.0, pr.1)->Ok_0;
            lemma_optional_zero_entry(p.optionals, pr.0, out1, k);
        }
    }
}

/// Law: the whole parse's failure names the first missing required
/// declaration. With no help key, enough tokens for the positional
/// declarations, and every required declaration before `k` resolving, a
/// required declaration `k` that the first pass leaves unsupplied and that
/// carries no default fails the parse with exactly the missing-required
/// failure carrying `k`'s canonical long name.
pub proof fn lemma_parse_missing_required_error(p: ParserModel, args: Seq<Seq<char>>, k: int)
    requires
        !help_requested(args),
        !(p.positionals.len() > 0 && args.len() < 1 + p.positionals.len()),
        0 <= k < p.required.len(),
        p.required[k].required,
        p.required[k].default is None,
    ensures
        ({
            let d = p.required[k];
            first_pass(p, args) matches Ok(pr) ==> ((!pr.0.contains_key(d.short)
                && !pr.0.contains_key(d.long) && (forall|j: int|
                0 <= j < k ==> resolve_one(p.required[j], pr.0) is Ok)) ==> parse_model(p, args)
                == ParseModel::Fail(ErrModel::MissingRequired(canon(d.long))))
        }),
{
    let d = p.required[k];
    if first_pass(p, args) is Ok {
        let pr = first_pass(p, args)->Ok_0;
        if !pr.0.contains_key(d.short) && !pr.0.contains_key(d.long) && (forall|j: int|
            0 <= j < k ==> resolve_one(p.required[j], pr.0) is Ok) {
            lemma_missing_required_error(p.required, pr.0, pr.1, k);
        }
    }
}

/// Law: the short and the long name of one declaration are equivalent ways to
/// supply it. Two token maps that carry the same raw value, one under the
/// short name and one under the long name, resolve the declaration alike.
pub proof fn lemma_alias_equivalence(
    d: DeclModel,
    t1: Map<Seq<char>, Seq<char>>,
    t2: Map<Seq<char>, Seq<char>>,
    v: Seq<char>,
)
    requires
        t1.contains_key(d.short),
        t1[d.short] == v,
        !t2.contains_key(d.short),
        t2.contains_key(d.long),
        t2[d.long] == v,
    ensures
        resolve_one(d, t1) == resolve_one(d, t2),
{
}

/// Law: help wins. A help key anywhere among the tokens makes the parse
/// report help and nothing else: no missing-required, positional or
/// malformed-input failure is ever raised then.
pub proof fn lemma_help_precedence(p: ParserModel, args: Seq<Seq<char>>)
    requires
        help_requested(args),
    ensures
        parse_model(p, args) is Help,
{
}

/// Law: positional arguments are consumed strictly by position, never by
/// name or help text. When the parse resolves, positional declaration `k`
/// holds the typed reading of raw token `1 + k` exactly, under its canonical
/// long name, provided no other declaration shares that name.
pub proof fn lemma_positional_by_position(p: ParserModel, args: Seq<Seq<char>>, k: int)
    requires
        0 <= k < p.positionals.len(),
        forall|j: int|
            k < j < p.positionals.len() ==> canon(p.positionals[j].long) != canon(
                p.positionals[k].long,
            ),
        forall|j: int|
            0 <= j < p.required.len() ==> canon(p.required[j].long) != canon(
                p.positionals[k].long,
            ),
        forall|j: int|
            0 <= j < p.optionals.len() ==> canon(p.optionals[j].long) != canon(
                p.positionals[k].long,
            ),
    ensures
        ({
            let key = canon(p.positionals[k].long);
            parse_model(p, args) matches ParseModel::Resolved(m) ==> (typed_parse(
                p.positionals[k].dtype,
                args[1 + k],
            ) matches Some(v) && m.contains_key(key) && m[key] == v)
        }),
{
    let key = canon(p.positionals[k].long);
    if parse_model(p, args) is Resolved {
        let pr = first_pass(p, args)->Ok_0;
        lemma_resolve_pos_entry(
            p.positionals,
            args,
            1,
            Map::empty(),
            Map::empty(),
            k,
        );
        let out1 = resolve_list(p.required, pr.0, pr.1)->Ok_0;
        lemma_resolve_list_frame(p.required, pr.0, pr.1, key);
        lemma_resolve_list_frame(p.optionals, pr.0, out1, key);
    }
}

} // verus!
