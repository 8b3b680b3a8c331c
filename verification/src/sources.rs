use vstd::prelude::*;

use crate::element::{error_message, ChartError};
use crate::text::{chars_of, dec, extend_chars, string_from, string_of, texts, u128_digits};

verus! {

/// The name of a transform block in messages: by the first of its parts
/// that is present (`sql`, `aggregate`, `forecast`).
pub fn describe_transform(has_sql: bool, has_aggregate: bool, has_forecast: bool) -> (r: &'static str)
    ensures
        has_sql ==> r@ == "sql"@,
        !has_sql && has_aggregate ==> r@ == "aggregate"@,
        !has_sql && !has_aggregate && has_forecast ==> r@ == "forecast"@,
        !has_sql && !has_aggregate && !has_forecast ==> r@ == "transform"@,
{
    if has_sql {
        "sql"
    } else if has_aggregate {
        "aggregate"
    } else if has_forecast {
        "forecast"
    } else {
        "transform"
    }
}

/// Records a fetched source under the cache hits or the cache misses.
pub fn classify_outcome(name: &str, cache_hit: bool, cache_hits: &mut Vec<String>, cache_misses: &mut Vec<String>)
    ensures
        cache_hit ==> texts(final(cache_hits)@) == texts(old(cache_hits)@).push(name@)
            && final(cache_misses)@ == old(cache_misses)@,
        !cache_hit ==> texts(final(cache_misses)@) == texts(old(cache_misses)@).push(name@)
            && final(cache_hits)@ == old(cache_hits)@,
{
    if cache_hit {
        cache_hits.push(string_from(name));
        assert(texts(cache_hits@) =~= texts(old(cache_hits)@).push(name@));
    } else {
        cache_misses.push(string_from(name));
        assert(texts(cache_misses@) =~= texts(old(cache_misses)@).push(name@));
    }
}

/// The message of a failed fetch, naming the source that failed.
pub open spec fn fetch_failure_message(base: ChartError, source_name: Seq<char>) -> Seq<char> {
    "source '"@ + source_name + "' fetch failed: "@ + error_message(base)
}

pub(crate) fn push_str(out: &mut Vec<char>, s: &str)
    ensures
        final(out)@ == old(out)@ + s@,
{
    let cs = chars_of(s);
    extend_chars(out, &cs);
}

/// Wraps the error of a failed fetch with the name of its source.
pub fn context_fetch_error(base: &ChartError, source_name: &str) -> (r: ChartError)
    ensures
        r matches ChartError::DataError(m) && m@ == fetch_failure_message(*base, source_name@),
{
    let mut out: Vec<char> = Vec::new();
    push_str(&mut out, "source '");
    push_str(&mut out, source_name);
    push_str(&mut out, "' fetch failed: ");
    let text = base.to_string();
    push_str(&mut out, text.as_str());
    assert(out@ =~= fetch_failure_message(*base, source_name@));
    ChartError::DataError(string_of(&out))
}

/// The first `n` names separated by `, `.
pub open spec fn joined(names: Seq<Seq<char>>, n: int) -> Seq<char>
    decreases n,
{
    if n <= 0 {
        Seq::empty()
    } else if n == 1 {
        names[0]
    } else {
        joined(names, n - 1) + ", "@ + names[n - 1]
    }
}

pub(crate) fn join_names(names: &Vec<String>) -> (r: Vec<char>)
    ensures
        r@ == joined(texts(names@), names@.len() as int),
{
    let mut out: Vec<char> = Vec::new();
    let mut i: usize = 0;
    while i < names.len()
        invariant
            i <= names@.len(),
            out@ == joined(texts(names@), i as int),
        decreases names@.len() - i,
    {
        if i > 0 {
            push_str(&mut out, ", ");
        }
        push_str(&mut out, names[i].as_str());
        i = i + 1;
        assert(out@ =~= joined(texts(names@), i as int));
    }
    out
}

/// The error of several sources with a transform but no middleware to join
/// them.
pub open spec fn join_required_message(names: Seq<Seq<char>>, transform: Seq<char>) -> Seq<char> {
    "Multi-source `data:` map (got "@ + dec(names.len()) + " sources: "@ + joined(names, names.len() as int)
        + ") with transform `"@ + transform
        + "` requires a registered TransformMiddleware to join the sources. Call `register_transform(DataFusionTransform)` (or another middleware) before rendering."@
}

/// The error of several sources without a transform to merge them.
pub open spec fn transform_required_message(names: Seq<Seq<char>>) -> Seq<char> {
    "Named data sources require a transform block when multiple sources are defined (got "@
        + dec(names.len()) + " sources: "@ + joined(names, names.len() as int) + ")."@
}

/// With a transform but no middleware, only one source can be used: the
/// position of that source among `names`, or the error naming them all.
pub fn single_source_or_err(names: &Vec<String>, transform: &str) -> (r: Result<usize, ChartError>)
    ensures
        r is Ok <==> names@.len() == 1,
        r matches Ok(i) ==> i == 0,
        r matches Err(e) ==> (e matches ChartError::InvalidSpec(m)
            && m@ == join_required_message(texts(names@), transform@)),
{
    if names.len() == 1 {
        return Ok(0);
    }
    let mut out: Vec<char> = Vec::new();
    push_str(&mut out, "Multi-source `data:` map (got ");
    let count = u128_digits(names.len() as u128);
    extend_chars(&mut out, &count);
    push_str(&mut out, " sources: ");
    let list = join_names(names);
    extend_chars(&mut out, &list);
    push_str(&mut out, ") with transform `");
    push_str(&mut out, transform);
    push_str(
        &mut out,
        "` requires a registered TransformMiddleware to join the sources. Call `register_transform(DataFusionTransform)` (or another middleware) before rendering.",
    );
    assert(out@ =~= join_required_message(texts(names@), transform@));
    Err(ChartError::InvalidSpec(string_of(&out)))
}

/// Without a transform, a chart reads exactly one source: the position of
/// that source among `names`, or the error naming them all.
pub fn single_source_or_err_no_transform(names: &Vec<String>) -> (r: Result<usize, ChartError>)
    ensures
        r is Ok <==> names@.len() == 1,
        r matches Ok(i) ==> i == 0,
        r matches Err(e) ==> (e matches ChartError::InvalidSpec(m)
            && m@ == transform_required_message(texts(names@))),
{
    if names.len() == 1 {
        return Ok(0);
    }
    let mut out: Vec<char> = Vec::new();
    push_str(&mut out, "Named data sources require a transform block when multiple sources are defined (got ");
    let count = u128_digits(names.len() as u128);
    extend_chars(&mut out, &count);
    push_str(&mut out, " sources: ");
    let list = join_names(names);
    extend_chars(&mut out, &list);
    push_str(&mut out, ").");
    assert(out@ =~= transform_required_message(texts(names@)));
    Err(ChartError::InvalidSpec(string_of(&out)))
}

} // verus!
