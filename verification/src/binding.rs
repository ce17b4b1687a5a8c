//! Binding the arguments of a call of an imported model to its declared inputs:
//! positional arguments fill the inputs in order, keyword arguments fill the input
//! they name, and every input must be filled exactly once.

use vstd::prelude::*;
use crate::text::{
    debug_list_string, debug_list_text, debug_str_string, debug_str_text, decimal, owned, str_eq, usize_text, views,
};

verus! {

/// Where the value of one declared input comes from.
#[derive(Debug, Clone, Copy, PartialEq, Eq, Structural)]
pub enum InputBinding {
    /// The positional argument at this position.
    Positional(usize),
    /// The keyword argument at this position of the keyword list.
    Keyword(usize),
}

/// The first position of a name in a list.
pub open spec fn first_position(names: Seq<Seq<char>>, name: Seq<char>, n: int) -> Option<int>
    decreases n,
{
    if n <= 0 {
        None
    } else {
        match first_position(names, name, n - 1) {
            Some(p) => Some(p),
            None => if names[n - 1] == name { Some(n - 1) } else { None },
        }
    }
}

/// The bindings after the positional arguments and the keyword arguments before
/// `n`, or the complaint about the first keyword that names no input or an input
/// already bound.
pub open spec fn keywords_bound(declared: Seq<Seq<char>>, positional: int, keywords: Seq<Seq<char>>, n: int)
    -> Result<Seq<Option<InputBinding>>, Seq<char>>
    decreases n,
{
    if n <= 0 {
        Ok(Seq::new(declared.len(), |i: int| if i < positional { Some(InputBinding::Positional(i as usize)) } else { None }))
    } else {
        match keywords_bound(declared, positional, keywords, n - 1) {
            Err(e) => Err(e),
            Ok(b) => match first_position(declared, keywords[n - 1], declared.len() as int) {
                None => Err("ImportedModel got an unexpected input "@ + debug_str_text(keywords[n - 1]) + "; expected "@
                    + debug_list_text(declared)),
                Some(i) => if b[i] is Some {
                    Err("ImportedModel got multiple values for input "@ + debug_str_text(keywords[n - 1]))
                } else {
                    Ok(b.update(i, Some(InputBinding::Keyword((n - 1) as usize))))
                },
            },
        }
    }
}

/// The declared inputs before `n` left unbound, in declaration order.
pub open spec fn unbound(declared: Seq<Seq<char>>, b: Seq<Option<InputBinding>>, n: int) -> Seq<Seq<char>>
    decreases n,
{
    if n <= 0 {
        Seq::empty()
    } else if b[n - 1] is None {
        unbound(declared, b, n - 1).push(declared[n - 1])
    } else {
        unbound(declared, b, n - 1)
    }
}

/// What binding a call's arguments gives: one binding per declared input, or the
/// complaint a caller sees.
pub open spec fn binding_spec(declared: Seq<Seq<char>>, positional: int, keywords: Seq<Seq<char>>)
    -> Result<Seq<InputBinding>, Seq<char>>
{
    if positional > declared.len() {
        Err("ImportedModel expected at most "@ + decimal(declared.len()) + " positional inputs, got "@ + decimal(positional as nat))
    } else {
        match keywords_bound(declared, positional, keywords, keywords.len() as int) {
            Err(e) => Err(e),
            Ok(b) => {
                let missing = unbound(declared, b, declared.len() as int);
                if missing.len() > 0 {
                    Err("ImportedModel is missing required inputs "@ + debug_list_text(missing))
                } else {
                    Ok(b.map_values(|x: Option<InputBinding>| x->0))
                }
            },
        }
    }
}

proof fn lemma_keywords_err(declared: Seq<Seq<char>>, positional: int, keywords: Seq<Seq<char>>, m: int, n: int)
    requires
        0 <= m <= n,
        keywords_bound(declared, positional, keywords, m) is Err,
    ensures
        keywords_bound(declared, positional, keywords, n) == keywords_bound(declared, positional, keywords, m),
    decreases n - m,
{
    if m < n {
        lemma_keywords_err(declared, positional, keywords, m, n - 1);
    }
}

proof fn lemma_first_position_bounds(names: Seq<Seq<char>>, name: Seq<char>, n: int)
    requires
        n <= names.len(),
    ensures
        first_position(names, name, n) matches Some(p) ==> 0 <= p < n && names[p] == name,
    decreases n,
{
    if n > 0 {
        lemma_first_position_bounds(names, name, n - 1);
    }
}

fn position_of(declared: &[String], name: &str) -> (r: Option<usize>)
    ensures
        match r {
            Some(p) => p < declared@.len() && first_position(views(declared@), name@, declared@.len() as int) == Some(p as int),
            None => first_position(views(declared@), name@, declared@.len() as int) is None,
        },
{
    let ghost d = views(declared@);
    let mut i: usize = 0;
    while i < declared.len()
        invariant
            i <= declared@.len(),
            d == views(declared@),
            first_position(d, name@, i as int) is None,
        decreases declared.len() - i,
    {
        if str_eq(declared[i].as_str(), name) {
            proof {
                lemma_first_position_stable(d, name@, i as int + 1, declared@.len() as int);
            }
            return Some(i);
        }
        i = i + 1;
    }
    None
}

proof fn lemma_first_position_stable(names: Seq<Seq<char>>, name: Seq<char>, m: int, n: int)
    requires
        1 <= m <= n,
        first_position(names, name, m) is Some,
    ensures
        first_position(names, name, n) == first_position(names, name, m),
    decreases n - m,
{
    if m < n {
        lemma_first_position_stable(names, name, m, n - 1);
    }
}

fn slice_strings(v: &[String]) -> (r: Vec<String>)
    ensures
        views(r@) == views(v@),
{
    let mut out: Vec<String> = Vec::new();
    let mut i: usize = 0;
    while i < v.len()
        invariant
            i <= v@.len(),
            views(out@) == views(v@).take(i as int),
        decreases v.len() - i,
    {
        let t = owned(v[i].as_str());
        let ghost prev = views(out@);
        out.push(t);
        assert(views(out@) =~= prev.push(t@));
        assert(views(v@).take(i + 1) =~= views(v@).take(i as int).push(v@[i as int]@));
        i = i + 1;
    }
    assert(views(v@).take(v@.len() as int) =~= views(v@));
    out
}

/// Bind a call's positional and keyword arguments to a model's declared inputs:
/// at most one positional argument per input, each keyword naming an input not yet
/// bound, and no input left unbound.
pub fn bind_model_inputs(declared: &[String], positional: usize, keywords: &[String]) -> (r: Result<Vec<InputBinding>, String>)
    ensures
        match binding_spec(views(declared@), positional as int, views(keywords@)) {
            Ok(b) => r matches Ok(v) && v@ == b,
            Err(m) => r matches Err(e) && e@ == m,
        },
{
    let ghost d = views(declared@);
    let ghost kw = views(keywords@);
    if positional > declared.len() {
        let mut m = owned("ImportedModel expected at most ");
        m.append(usize_text(declared.len()).as_str());
        m.append(" positional inputs, got ");
        m.append(usize_text(positional).as_str());
        return Err(m);
    }
    let mut bound: Vec<Option<InputBinding>> = Vec::new();
    let mut i: usize = 0;
    while i < declared.len()
        invariant
            i <= declared@.len(),
            positional <= declared@.len(),
            bound@ == Seq::new(i as nat, |x: int| if x < positional { Some(InputBinding::Positional(x as usize)) } else { None }),
        decreases declared.len() - i,
    {
        if i < positional {
            bound.push(Some(InputBinding::Positional(i)));
        } else {
            bound.push(None);
        }
        proof {
            assert(bound@ =~= Seq::new((i + 1) as nat, |x: int| if x < positional { Some(InputBinding::Positional(x as usize)) } else { None }));
        }
        i = i + 1;
    }
    assert(bound@ =~= Seq::new(d.len(), |x: int| if x < positional { Some(InputBinding::Positional(x as usize)) } else { None }));
    assert(keywords_bound(d, positional as int, kw, 0) == Ok::<Seq<Option<InputBinding>>, Seq<char>>(bound@));
    let mut k: usize = 0;
    while k < keywords.len()
        invariant
            k <= keywords@.len(),
            d == views(declared@),
            kw == views(keywords@),
            positional <= declared@.len(),
            bound@.len() == declared@.len(),
            keywords_bound(d, positional as int, kw, k as int) == Ok::<Seq<Option<InputBinding>>, Seq<char>>(bound@),
        decreases keywords.len() - k,
    {
        let name = keywords[k].as_str();
        match position_of(declared, name) {
            None => {
                let mut m = owned("ImportedModel got an unexpected input ");
                m.append(debug_str_string(name).as_str());
                m.append("; expected ");
                let names = slice_strings(declared);
                m.append(debug_list_string(&names).as_str());
                proof {
                    lemma_keywords_err(d, positional as int, kw, k + 1, kw.len() as int);
                }
                return Err(m);
            },
            Some(p) => {
                if bound[p].is_some() {
                    let mut m = owned("ImportedModel got multiple values for input ");
                    m.append(debug_str_string(name).as_str());
                    proof {
                        lemma_keywords_err(d, positional as int, kw, k + 1, kw.len() as int);
                    }
                    return Err(m);
                }
                bound.set(p, Some(InputBinding::Keyword(k)));
            },
        }
        k = k + 1;
    }
    let mut missing: Vec<String> = Vec::new();
    let mut out: Vec<InputBinding> = Vec::new();
    let mut j: usize = 0;
    while j < bound.len()
        invariant
            j <= bound@.len(),
            bound@.len() == declared@.len(),
            d == views(declared@),
            views(missing@) == unbound(d, bound@, j as int),
            missing@.len() == 0 ==> out@ == bound@.take(j as int).map_values(|x: Option<InputBinding>| x->0),
        decreases bound.len() - j,
    {
        match bound[j] {
            Some(b) => {
                if missing.len() == 0 {
                    out.push(b);
                    assert(bound@.take(j + 1).map_values(|x: Option<InputBinding>| x->0)
                        =~= bound@.take(j as int).map_values(|x: Option<InputBinding>| x->0).push(b));
                }
            },
            None => {
                let ghost m0 = views(missing@);
                missing.push(owned(declared[j].as_str()));
                assert(views(missing@) =~= m0.push(d[j as int]));
            },
        }
        j = j + 1;
    }
    if missing.len() > 0 {
        let mut m = owned("ImportedModel is missing required inputs ");
        m.append(debug_list_string(&missing).as_str());
        return Err(m);
    }
    assert(bound@.take(bound@.len() as int) =~= bound@);
    Ok(out)
}

} // verus!
