//! Filter chains in `{% if/elsif/unless %}` conditions are moved into
//! preceding `{% assign %}` tags:
//! `{% if a and b | default: false %}` becomes
//! `{% assign __if_filter_1 = b | default: false %}{% if a and __if_filter_1 %}`.
use vstd::prelude::*;
use crate::capture::{tag_unchanged, unchanged_tag};
use crate::numfmt::{decimal, u64_to_decimal};
use crate::quotes::{
    has_pipe_outside_strings, logical_op_from, logical_scan_safe, logical_scan_safe_exec, split_logical,
    split_next_logical_op, step_quotes, top_level_pipe, top_level_pipe_from,
};
use crate::tagbody::{dash, lemma_tag_parts_len, push_dash, split_tag_parts, strip_prefix, tag_parts};
use crate::text::{
    chars_to_string, contains, find_at, lemma_trim_len, find_from, has_prefix, lemma_find_from, occurs_at,
    push_all, push_range, slice, starts_with, str_to_chars, trim, trim_chars,
};

verus! {

pub proof fn lemma_logical_op_bounds(s: Seq<char>, i: int, sq: bool, dq: bool)
    requires
        0 <= i,
    ensures
        match logical_op_from(s, i, sq, dq) {
            Some((k, true)) => i <= k && k + 5 <= s.len(),
            Some((k, false)) => i <= k && k + 4 <= s.len(),
            None => true,
        },
    decreases s.len() - i,
{
    reveal_strlit(" and ");
    reveal_strlit(" or ");
    if i < s.len() {
        let (a, b) = step_quotes(s[i], sq, dq);
        lemma_logical_op_bounds(s, i + 1, a, b);
    }
}

pub proof fn lemma_top_level_pipe_bounds(s: Seq<char>, i: int, sq: bool, dq: bool)
    ensures
        top_level_pipe_from(s, i, sq, dq) matches Some(k) ==> 0 <= i <= k < s.len(),
    decreases s.len() - i,
{
    if 0 <= i < s.len() && !(s[i] == '|' && !sq && !dq) {
        let (a, b) = step_quotes(s[i], sq, dq);
        lemma_top_level_pipe_bounds(s, i + 1, a, b);
    }
}

/// The temporary variable holding the `n`-th extracted filter chain.
pub open spec fn if_filter_var(n: nat) -> Seq<char> {
    "__if_filter_"@ + decimal(n)
}

/// Rewrites the operands of `rem` (a chain of `and`/`or` operands): an operand
/// with an unquoted `|` is replaced by a fresh variable, numbered after
/// `counter`, and its assignment is collected. Returns the new condition
/// body, the collected `{% assign %}` tags, and the last number used.
pub open spec fn chain_rewrite(rem: Seq<char>, counter: nat, first: bool) -> (Seq<char>, Seq<char>, nat)
    decreases rem.len(),
{
    let (operand, conn, rest) = split_logical(rem);
    let op = trim(operand);
    let sep: Seq<char> = if first {
        Seq::empty()
    } else {
        " "@
    };
    let (piece, assign, c1) = if top_level_pipe(op) is Some {
        let var = if_filter_var(counter + 1);
        (var, "{% assign "@ + var + " = "@ + op + " %}"@, counter + 1)
    } else {
        (op, Seq::<char>::empty(), counter)
    };
    match conn {
        Some(c) => {
            proof {
                lemma_logical_op_bounds(rem, 0, false, false);
            }
            if rest.len() < rem.len() {
                let (b, p, c2) = chain_rewrite(rest, c1, false);
                (sep + piece + " "@ + c + b, assign + p, c2)
            } else {
                (sep + piece, assign, c1)
            }
        },
        None => (sep + piece, assign, c1),
    }
}

/// Every operator scan of the chain stays on character boundaries.
pub open spec fn chain_safe(rem: Seq<char>) -> bool
    decreases rem.len(),
{
    let (operand, conn, rest) = split_logical(rem);
    logical_scan_safe(rem) && match conn {
        Some(c) => {
            proof {
                lemma_logical_op_bounds(rem, 0, false, false);
            }
            rest.len() < rem.len() ==> chain_safe(rest)
        },
        None => true,
    }
}

/// A conditional tag's content split into its keyword and trimmed condition body.
pub open spec fn condition_keyword(content: Seq<char>) -> Option<(Seq<char>, Seq<char>)> {
    match strip_prefix(content, "if "@) {
        Some(rest) => Some(("if"@, trim(rest))),
        None => match strip_prefix(content, "elsif "@) {
            Some(rest) => Some(("elsif"@, trim(rest))),
            None => match strip_prefix(content, "unless "@) {
                Some(rest) => Some(("unless"@, trim(rest))),
                None => None,
            },
        },
    }
}

/// The assignments and the new condition for a conditional tag's content,
/// with the last variable number used; `None` when nothing is extracted.
pub open spec fn condition_filter_rewrite(content: Seq<char>, counter: nat) -> Option<(Seq<char>, Seq<char>, nat)> {
    match condition_keyword(content) {
        None => None,
        Some((kw, body)) => if top_level_pipe(body) is None {
            None
        } else {
            let (nb, pre, c) = chain_rewrite(body, counter, true);
            Some((pre, kw + " "@ + nb, c))
        },
    }
}

/// Whether a tag's content is an `if`, `elsif` or `unless` condition.
pub open spec fn is_conditional(content: Seq<char>) -> bool {
    starts_with(content, "if "@) || starts_with(content, "elsif "@) || starts_with(content, "unless "@)
}

/// What one tag becomes, and the last variable number used after it; the
/// rewritten tag keeps its whitespace-control dashes at its edges.
pub open spec fn if_filter_tag(inner: Seq<char>, counter: nat) -> (Seq<char>, nat) {
    let (lead, content, trail) = tag_parts(inner);
    if is_conditional(content) && contains(content, "|"@) {
        match condition_filter_rewrite(content, counter) {
            Some((pre, cond, n)) => (pre + "{%"@ + dash(lead) + " "@ + cond + " "@ + dash(trail) + "%}"@, n),
            None => (tag_unchanged(inner), counter),
        }
    } else {
        (tag_unchanged(inner), counter)
    }
}

/// A tag's condition rewrite never slices inside a character.
pub open spec fn if_filter_tag_safe(inner: Seq<char>) -> bool {
    let (lead, content, trail) = tag_parts(inner);
    is_conditional(content) && contains(content, "|"@) ==> match condition_keyword(content) {
        None => true,
        Some((kw, body)) => top_level_pipe(body) is Some ==> chain_safe(body),
    }
}

/// The `{% ... %}` tags from index `pos` on, rewritten with variable numbers
/// continuing after `counter`.
pub open spec fn if_filters_from(s: Seq<char>, pos: int, counter: nat) -> Seq<char>
    decreases s.len() + 1 - pos,
{
    if !(0 <= pos <= s.len()) {
        s.skip(pos)
    } else {
        match find_from(s, "{%"@, pos) {
            None => s.skip(pos),
            Some(st) => match find_from(s, "%}"@, st + 2) {
                None => s.skip(pos),
                Some(e) => if pos <= st && st + 2 <= e && e + 2 <= s.len() {
                    let (rep, c) = if_filter_tag(s.subrange(st + 2, e), counter);
                    s.subrange(pos, st) + rep + if_filters_from(s, e + 2, c)
                } else {
                    s.skip(pos)
                },
            },
        }
    }
}

/// Every tag from index `pos` on is rewritten without slicing inside a character.
pub open spec fn if_filters_safe_from(s: Seq<char>, pos: int) -> bool
    decreases s.len() + 1 - pos,
{
    if !(0 <= pos <= s.len()) {
        true
    } else {
        match find_from(s, "{%"@, pos) {
            None => true,
            Some(st) => match find_from(s, "%}"@, st + 2) {
                None => true,
                Some(e) => if pos <= st && st + 2 <= e && e + 2 <= s.len() {
                    if_filter_tag_safe(s.subrange(st + 2, e)) && if_filters_safe_from(s, e + 2)
                } else {
                    true
                },
            },
        }
    }
}

/// The template with filter chains moved out of conditions.
pub open spec fn if_filters_rewritten(t: Seq<char>) -> Seq<char> {
    if !contains(t, "if "@) && !contains(t, "unless "@) {
        t
    } else {
        if_filters_from(t, 0, 0)
    }
}

/// The template's conditions are rewritten without slicing inside a character.
pub open spec fn if_filters_safe(t: Seq<char>) -> bool {
    !contains(t, "if "@) && !contains(t, "unless "@) || if_filters_safe_from(t, 0)
}

/// The last variable number used by a chain is at most the chain's length
/// past the number it started from.
pub proof fn lemma_chain_counter(rem: Seq<char>, c: nat, first: bool)
    ensures
        c <= chain_rewrite(rem, c, first).2 <= c + rem.len(),
    decreases rem.len(),
{
    let (operand, conn, rest) = split_logical(rem);
    let op = trim(operand);
    lemma_logical_op_bounds(rem, 0, false, false);
    lemma_trim_len(operand);
    lemma_top_level_pipe_bounds(op, 0, false, false);
    let c1 = if top_level_pipe(op) is Some { c + 1 } else { c };
    match conn {
        Some(_) => {
            if rest.len() < rem.len() {
                lemma_chain_counter(rest, c1, false);
            }
        },
        None => {},
    }
}

/// Rewrites the operands of a condition body, numbering variables after `counter`.
fn rewrite_chain(body: &Vec<char>, counter: u64) -> (r: (Vec<char>, Vec<char>, u64))
    requires
        counter + body@.len() <= u64::MAX,
    ensures
        r.0@ == chain_rewrite(body@, counter as nat, true).0,
        r.1@ == chain_rewrite(body@, counter as nat, true).1,
        r.2 as nat == chain_rewrite(body@, counter as nat, true).2,
{
    let mut remaining = body.clone();
    let mut first = true;
    let mut c = counter;
    let mut nb: Vec<char> = Vec::new();
    let mut pre: Vec<char> = Vec::new();
    proof { lemma_chain_counter(body@, counter as nat, true); }
    loop
        invariant
            c + remaining@.len() <= u64::MAX,
            chain_rewrite(body@, counter as nat, true).0 == nb@ + chain_rewrite(remaining@, c as nat, first).0,
            chain_rewrite(body@, counter as nat, true).1 == pre@ + chain_rewrite(remaining@, c as nat, first).1,
            chain_rewrite(body@, counter as nat, true).2 == chain_rewrite(remaining@, c as nat, first).2,
        decreases remaining.len(),
    {
        let ghost rem = remaining@;
        let ghost cg = c as nat;
        let ghost fg = first;
        proof {
            lemma_logical_op_bounds(rem, 0, false, false);
            lemma_chain_counter(rem, cg, fg);
        }
        let (operand, conn, rest) = split_next_logical_op(&remaining);
        let op = trim_chars(&operand);
        proof {
            lemma_trim_len(operand@);
            lemma_top_level_pipe_bounds(op@, 0, false, false);
        }
        let mut piece_part: Vec<char> = Vec::new();
        if !first {
            piece_part.push(' ');
        }
        first = false;
        let mut assign: Vec<char> = Vec::new();
        if has_pipe_outside_strings(&op) {
            c += 1;
            let mut var = str_to_chars("__if_filter_");
            push_all(&mut var, &u64_to_decimal(c));
            assign = str_to_chars("{% assign ");
            push_all(&mut assign, &var);
            push_all(&mut assign, &str_to_chars(" = "));
            push_all(&mut assign, &op);
            push_all(&mut assign, &str_to_chars(" %}"));
            push_all(&mut piece_part, &var);
        } else {
            push_all(&mut piece_part, &op);
        }
        let ghost sep: Seq<char> = if fg { Seq::empty() } else { " "@ };
        proof {
            reveal_strlit(" ");
            if fg {
                assert(piece_part@ =~= sep + (if top_level_pipe(op@) is Some { if_filter_var(cg + 1) } else { op@ }));
            } else {
                assert(piece_part@ =~= sep + (if top_level_pipe(op@) is Some { if_filter_var(cg + 1) } else { op@ }));
            }
        }
        match conn {
            Some(cn) => {
                push_all(&mut piece_part, &str_to_chars(" "));
                push_all(&mut piece_part, &cn);
                let ghost x = chain_rewrite(rest@, c as nat, false);
                assert(chain_rewrite(rem, cg, fg).0 == piece_part@ + x.0);
                assert(chain_rewrite(rem, cg, fg).1 == assign@ + x.1);
                push_all(&mut nb, &piece_part);
                push_all(&mut pre, &assign);
                remaining = rest;
            },
            None => {
                push_all(&mut nb, &piece_part);
                push_all(&mut pre, &assign);
                return (nb, pre, c);
            },
        }
    }
}

/// A condition whose filter chains were moved into assignments.
pub struct ConditionRewrite {
    /// The `{% assign %}` tags to emit before the condition.
    pub prefix_assigns: Vec<char>,
    /// The condition with each filter chain replaced by its variable.
    pub condition: Vec<char>,
}

/// The keyword and trimmed body of an `if`/`elsif`/`unless` tag's content.
fn split_condition_keyword(content: &Vec<char>) -> (r: Option<(Vec<char>, Vec<char>)>)
    ensures
        match r {
            Some((k, b)) => condition_keyword(content@) == Some((k@, b@)),
            None => condition_keyword(content@) is None,
        },
        r matches Some((k, b)) ==> b@.len() <= content@.len(),
{
    let kws = [str_to_chars("if "), str_to_chars("elsif "), str_to_chars("unless ")];
    let names = [str_to_chars("if"), str_to_chars("elsif"), str_to_chars("unless")];
    let mut i: usize = 0;
    if has_prefix(content, &kws[0]) {
        i = 0;
    } else if has_prefix(content, &kws[1]) {
        i = 1;
    } else if has_prefix(content, &kws[2]) {
        i = 2;
    } else {
        return None;
    }
    let rest = slice(content, kws[i].len(), content.len());
    assert(rest@ =~= content@.skip(kws[i as int]@.len() as int));
    let body = trim_chars(&rest);
    proof { lemma_trim_len(rest@); }
    Some((names[i].clone(), body))
}

/// Moves the filter chains of a conditional tag's content into assignments,
/// numbering the variables after `*counter`; `None` (and `*counter` kept)
/// when the content is not a condition with an unquoted `|`.
pub fn rewrite_condition_filter_chain(content: &Vec<char>, counter: &mut u64) -> (r: Option<ConditionRewrite>)
    requires
        *old(counter) + content@.len() <= u64::MAX,
    ensures
        match r {
            Some(cr) => condition_filter_rewrite(content@, *old(counter) as nat) == Some(
                (cr.prefix_assigns@, cr.condition@, *final(counter) as nat),
            ),
            None => condition_filter_rewrite(content@, *old(counter) as nat) is None && *final(counter)
                == *old(counter),
        },
        *old(counter) <= *final(counter) <= *old(counter) + content@.len(),
{
    match split_condition_keyword(content) {
        None => None,
        Some((kw, body)) => {
            if !has_pipe_outside_strings(&body) {
                return None;
            }
            proof { lemma_chain_counter(body@, *counter as nat, true); }
            let (nb, pre, c) = rewrite_chain(&body, *counter);
            *counter = c;
            let mut cond = kw;
            push_all(&mut cond, &str_to_chars(" "));
            push_all(&mut cond, &nb);
            Some(ConditionRewrite { prefix_assigns: pre, condition: cond })
        },
    }
}

/// Rewrites one tag; returns the replacement and the last variable number.
fn if_filter_tag_exec(inner: &Vec<char>, counter: u64) -> (r: (Vec<char>, u64))
    requires
        counter + inner@.len() <= u64::MAX,
    ensures
        (r.0@, r.1 as nat) == if_filter_tag(inner@, counter as nat),
        counter <= r.1 <= counter + inner@.len(),
{
    let (lead, content, trail) = split_tag_parts(inner);
    proof { lemma_tag_parts_len(inner@); }
    let is_cond = has_prefix(&content, &str_to_chars("if ")) || has_prefix(&content, &str_to_chars("elsif "))
        || has_prefix(&content, &str_to_chars("unless "));
    if is_cond && find_at(&content, &str_to_chars("|"), 0).is_some() {
        let mut c = counter;
        match rewrite_condition_filter_chain(&content, &mut c) {
            Some(cr) => {
                let mut out = cr.prefix_assigns;
                push_all(&mut out, &str_to_chars("{%"));
                push_dash(&mut out, lead);
                push_all(&mut out, &str_to_chars(" "));
                push_all(&mut out, &cr.condition);
                push_all(&mut out, &str_to_chars(" "));
                push_dash(&mut out, trail);
                push_all(&mut out, &str_to_chars("%}"));
                (out, c)
            },
            None => (unchanged_tag(inner), counter),
        }
    } else {
        (unchanged_tag(inner), counter)
    }
}

/// Moves filter chains out of `{% if %}`, `{% elsif %}` and `{% unless %}`
/// conditions into preceding `{% assign __if_filter_N = ... %}` tags.
pub fn preprocess_if_condition_filters(template: &str) -> (r: String)
    requires
        if_filters_safe(template@),
    ensures
        r@ == if_filters_rewritten(template@),
{
    let s = str_to_chars(template);
    let if_kw = str_to_chars("if ");
    let unless_kw = str_to_chars("unless ");
    if find_at(&s, &if_kw, 0).is_none() && find_at(&s, &unless_kw, 0).is_none() {
        return chars_to_string(&s);
    }
    let open = str_to_chars("{%");
    let close = str_to_chars("%}");
    proof {
        reveal_strlit("{%");
        reveal_strlit("%}");
    }
    let mut out: Vec<char> = Vec::new();
    let mut pos: usize = 0;
    let mut counter: u64 = 0;
    loop
        invariant
            pos <= s.len(),
            counter <= pos,
            contains(s@, "if "@) || contains(s@, "unless "@),
            s@ == template@,
            open@ == "{%"@,
            close@ == "%}"@,
            open@.len() == 2,
            close@.len() == 2,
            if_filters_from(s@, 0, 0) == out@ + if_filters_from(s@, pos as int, counter as nat),
        decreases s.len() + 1 - pos,
    {
        let ghost before = out@;
        match find_at(&s, &open, pos) {
            None => {
                push_range(&mut out, &s, pos, s.len());
                assert(s@.skip(pos as int) =~= s@.subrange(pos as int, s@.len() as int));
                return chars_to_string(&out);
            },
            Some(st) => {
                proof { lemma_find_from(s@, open@, pos as int); }
                match find_at(&s, &close, st + 2) {
                    None => {
                        push_range(&mut out, &s, pos, s.len());
                        assert(s@.skip(pos as int) =~= s@.subrange(pos as int, s@.len() as int));
                        return chars_to_string(&out);
                    },
                    Some(e) => {
                        proof { lemma_find_from(s@, close@, st + 2); }
                        push_range(&mut out, &s, pos, st);
                        let inner = slice(&s, st + 2, e);
                        let (rep, c) = if_filter_tag_exec(&inner, counter);
                        push_all(&mut out, &rep);
                        counter = c;
                        pos = e + 2;
                    },
                }
            },
        }
    }
}

/// Whether the operator scans of a condition chain stay on character
/// boundaries.
fn chain_safe_exec(body: &Vec<char>) -> (r: bool)
    ensures
        r == chain_safe(body@),
{
    let mut remaining = body.clone();
    assert(remaining@ == body@);
    loop
        invariant
            chain_safe(body@) == chain_safe(remaining@),
        decreases remaining.len(),
    {
        if !logical_scan_safe_exec(&remaining) {
            return false;
        }
        let (_operand, conn, rest) = split_next_logical_op(&remaining);
        match conn {
            None => return true,
            Some(_c) => {
                if rest.len() < remaining.len() {
                    remaining = rest;
                } else {
                    return true;
                }
            },
        }
    }
}

/// Whether rewriting one tag stays on character boundaries.
fn if_filter_tag_safe_exec(inner: &Vec<char>) -> (r: bool)
    ensures
        r == if_filter_tag_safe(inner@),
{
    let (_lead, content, _trail) = split_tag_parts(inner);
    let is_cond = has_prefix(&content, &str_to_chars("if ")) || has_prefix(&content, &str_to_chars("elsif "))
        || has_prefix(&content, &str_to_chars("unless "));
    let pipe = str_to_chars("|");
    proof {
        lemma_find_from(content@, pipe@, 0);
    }
    if is_cond && find_at(&content, &pipe, 0).is_some() {
        match split_condition_keyword(&content) {
            None => true,
            Some((_kw, body)) => {
                if has_pipe_outside_strings(&body) {
                    chain_safe_exec(&body)
                } else {
                    true
                }
            },
        }
    } else {
        true
    }
}

/// Whether moving filter chains out of the template's conditions stays on
/// character boundaries (the inputs `preprocess_if_condition_filters` takes).
pub fn if_filters_safe_exec(template: &str) -> (r: bool)
    ensures
        r == if_filters_safe(template@),
{
    let s = str_to_chars(template);
    let if_kw = str_to_chars("if ");
    let unless_kw = str_to_chars("unless ");
    proof {
        lemma_find_from(s@, if_kw@, 0);
        lemma_find_from(s@, unless_kw@, 0);
    }
    if find_at(&s, &if_kw, 0).is_none() && find_at(&s, &unless_kw, 0).is_none() {
        return true;
    }
    let open = str_to_chars("{%");
    let close = str_to_chars("%}");
    proof {
        reveal_strlit("{%");
        reveal_strlit("%}");
    }
    let mut pos: usize = 0;
    loop
        invariant
            pos <= s.len(),
            s@ == template@,
            open@ == "{%"@,
            close@ == "%}"@,
            open@.len() == 2,
            close@.len() == 2,
            if_filters_safe_from(s@, 0) == if_filters_safe_from(s@, pos as int),
            if_filters_safe(template@) == if_filters_safe_from(s@, 0),
        decreases s.len() + 1 - pos,
    {
        match find_at(&s, &open, pos) {
            None => return true,
            Some(st) => {
                proof { lemma_find_from(s@, open@, pos as int); }
                match find_at(&s, &close, st + 2) {
                    None => return true,
                    Some(e) => {
                        proof { lemma_find_from(s@, close@, st + 2); }
                        let inner = slice(&s, st + 2, e);
                        if !if_filter_tag_safe_exec(&inner) {
                            return false;
                        }
                        pos = e + 2;
                    },
                }
            },
        }
    }
}

} // verus!
