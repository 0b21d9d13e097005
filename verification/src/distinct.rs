//! Nothing is lost on the machine-readable line: distinct JSON values have distinct compact forms,
//! and distinct reports have distinct lines.

use vstd::prelude::*;
use vstd::string::*;

use crate::json::{
    class_members, error_json, escaped, escaped_char, hex_digit, json_text, json_texts,
    member_texts, quoted_text, report_json, verdict_json, Json,
};
use crate::phylum::{NoduleVerdictView, PhylumErrorView, PhylumReportView};
use crate::text::{decimal, digit, joined};

verus! {

/// Whether `rest` can follow a value: it is empty, or goes on with what separates or ends values.
spec fn ends_a_value(rest: Seq<char>) -> bool {
    rest.len() == 0 || rest[0] == ',' || rest[0] == ']' || rest[0] == '}'
}

/// Where two texts with a first part of the same length agree, their parts do.
proof fn lemma_same_parts(a: Seq<char>, r: Seq<char>, b: Seq<char>, s: Seq<char>)
    requires
        a + r == b + s,
        a.len() == b.len(),
    ensures
        a == b,
        r == s,
{
    assert(a =~= (a + r).take(a.len() as int));
    assert(b =~= (b + s).take(b.len() as int));
    assert(r =~= (a + r).skip(a.len() as int));
    assert(s =~= (b + s).skip(b.len() as int));
}

proof fn lemma_escaped_char_is_prefix_free(a: char, b: char, r: Seq<char>, s: Seq<char>)
    requires
        escaped_char(a) + r == escaped_char(b) + s,
    ensures
        a == b,
        r == s,
{
    let x = escaped_char(a);
    let y = escaped_char(b);
    assert((x + r)[0] == x[0] && (y + s)[0] == y[0]);
    if x.len() > 1 && y.len() > 1 {
        assert((x + r)[1] == x[1] && (y + s)[1] == y[1]);
    }
    if x.len() > 2 && y.len() > 2 {
        assert((x + r)[4] == x[4] && (y + s)[4] == y[4]);
        assert((x + r)[5] == x[5] && (y + s)[5] == y[5]);
        assert(x[4] == hex_digit(a as int / 16 % 16) && x[5] == hex_digit(a as int % 16));
        assert(y[4] == hex_digit(b as int / 16 % 16) && y[5] == hex_digit(b as int % 16));
        assert(a as int == a as int / 16 % 16 * 16 + a as int % 16);
        assert(b as int == b as int / 16 % 16 * 16 + b as int % 16);
        assert(a as int == b as int);
    }
    assert(a == b);
    lemma_same_parts(x, r, y, s);
}

/// The closing quote of an escaped text is found.
proof fn lemma_escaped_is_prefix_free(a: Seq<char>, b: Seq<char>, r: Seq<char>, s: Seq<char>)
    requires
        escaped(a) + seq!['"'] + r == escaped(b) + seq!['"'] + s,
    ensures
        a == b,
        r == s,
    decreases a.len(),
{
    let left = escaped(a) + seq!['"'] + r;
    let right = escaped(b) + seq!['"'] + s;
    if a.len() > 0 {
        assert(left[0] == escaped_char(a[0])[0]);
        assert(left[0] != '"');
    } else {
        assert(left[0] == '"');
    }
    if b.len() > 0 {
        assert(right[0] == escaped_char(b[0])[0]);
        assert(right[0] != '"');
    } else {
        assert(right[0] == '"');
    }
    if a.len() == 0 {
        assert(a =~= b);
        lemma_same_parts(escaped(a) + seq!['"'], r, escaped(b) + seq!['"'], s);
    } else {
        let more = escaped(a.skip(1)) + seq!['"'] + r;
        let others = escaped(b.skip(1)) + seq!['"'] + s;
        assert(left =~= escaped_char(a[0]) + more);
        assert(right =~= escaped_char(b[0]) + others);
        lemma_escaped_char_is_prefix_free(a[0], b[0], more, others);
        lemma_escaped_is_prefix_free(a.skip(1), b.skip(1), r, s);
        assert(a =~= seq![a[0]] + a.skip(1));
        assert(b =~= seq![b[0]] + b.skip(1));
    }
}

proof fn lemma_quoted_is_prefix_free(a: Seq<char>, b: Seq<char>, r: Seq<char>, s: Seq<char>)
    requires
        quoted_text(a) + r == quoted_text(b) + s,
    ensures
        a == b,
        r == s,
{
    reveal_strlit("\"");
    assert("\""@ =~= seq!['"']);
    let more = escaped(a) + seq!['"'] + r;
    let others = escaped(b) + seq!['"'] + s;
    assert(quoted_text(a) + r =~= seq!['"'] + more);
    assert(quoted_text(b) + s =~= seq!['"'] + others);
    lemma_same_parts(seq!['"'], more, seq!['"'], others);
    lemma_escaped_is_prefix_free(a, b, r, s);
}

spec fn is_digit(c: char) -> bool {
    '0' <= c <= '9'
}

proof fn lemma_decimal_is_digits(n: nat)
    ensures
        decimal(n).len() > 0,
        forall|i: int| 0 <= i < decimal(n).len() ==> is_digit(#[trigger] decimal(n)[i]),
    decreases n,
{
    if n >= 10 {
        lemma_decimal_is_digits(n / 10);
    }
}

proof fn lemma_decimal_is_injective(m: nat, n: nat)
    requires
        decimal(m) == decimal(n),
    ensures
        m == n,
    decreases m,
{
    lemma_decimal_is_digits(m / 10);
    lemma_decimal_is_digits(n / 10);
    assert(decimal(m).last() == digit(m % 10));
    assert(decimal(n).last() == digit(n % 10));
    if m >= 10 {
        assert(decimal(m).drop_last() =~= decimal(m / 10));
        assert(decimal(n).drop_last() =~= decimal(n / 10));
        lemma_decimal_is_injective(m / 10, n / 10);
    }
}

proof fn lemma_decimal_is_prefix_free(m: nat, n: nat, r: Seq<char>, s: Seq<char>)
    requires
        decimal(m) + r == decimal(n) + s,
        ends_a_value(r),
        ends_a_value(s),
    ensures
        m == n,
        r == s,
{
    let a = decimal(m);
    let b = decimal(n);
    lemma_decimal_is_digits(m);
    lemma_decimal_is_digits(n);
    if a.len() < b.len() {
        assert((a + r)[a.len() as int] == r[0]);
        assert((b + s)[a.len() as int] == b[a.len() as int]);
        assert(is_digit(b[a.len() as int]));
        assert(false);
    } else if b.len() < a.len() {
        assert((b + s)[b.len() as int] == s[0]);
        assert((a + r)[b.len() as int] == a[b.len() as int]);
        assert(is_digit(a[b.len() as int]));
        assert(false);
    }
    lemma_same_parts(a, r, b, s);
    lemma_decimal_is_injective(m, n);
}

/// The character that a value begins with.
spec fn opens_with(value: Json, c: char) -> bool {
    match value {
        Json::Null => c == 'n',
        Json::Bool(true) => c == 't',
        Json::Bool(false) => c == 'f',
        Json::Number(_) => is_digit(c),
        Json::Text(_) => c == '"',
        Json::List(_) => c == '[',
        Json::Object(_) => c == '{',
    }
}

proof fn lemma_opening(value: Json)
    ensures
        json_text(value).len() > 0,
        opens_with(value, json_text(value)[0]),
{
    reveal_strlit("null");
    reveal_strlit("true");
    reveal_strlit("false");
    reveal_strlit("\"");
    reveal_strlit("[");
    reveal_strlit("{");
    if let Json::Number(n) = value {
        lemma_decimal_is_digits(n);
    }
}

/// The parts from place `k` on, each behind a comma but for the first of all.
spec fn listed_from(parts: Seq<Seq<char>>, k: int) -> Seq<char>
    decreases parts.len() - k,
{
    if 0 <= k < parts.len() {
        (if k == 0 {
            seq![]
        } else {
            seq![',']
        }) + parts[k] + listed_from(parts, k + 1)
    } else {
        seq![]
    }
}

proof fn lemma_joined_forwards(parts: Seq<Seq<char>>, k: int)
    requires
        0 <= k <= parts.len(),
    ensures
        joined(parts, ","@) == joined(parts.take(k), ","@) + listed_from(parts, k),
    decreases parts.len() - k,
{
    reveal_strlit(",");
    assert(","@ =~= seq![',']);
    if k == parts.len() {
        assert(parts.take(k) =~= parts);
        assert(joined(parts, ","@) + listed_from(parts, k) =~= joined(parts, ","@));
    } else {
        lemma_joined_forwards(parts, k + 1);
        assert(parts.take(k + 1).drop_last() =~= parts.take(k));
        assert(parts.take(k + 1).last() == parts[k]);
        assert(joined(parts.take(k), ","@) + listed_from(parts, k) =~= joined(
            parts.take(k + 1),
            ","@,
        ) + listed_from(parts, k + 1));
    }
}

proof fn lemma_listed(parts: Seq<Seq<char>>)
    ensures
        joined(parts, ","@) == listed_from(parts, 0),
{
    lemma_joined_forwards(parts, 0);
    assert(joined(parts.take(0), ","@) =~= seq![]);
    assert(joined(parts.take(0), ","@) + listed_from(parts, 0) =~= listed_from(parts, 0));
}

proof fn lemma_json_texts_at(items: Seq<Json>)
    ensures
        json_texts(items).len() == items.len(),
        forall|k: int|
            0 <= k < items.len() ==> #[trigger] json_texts(items)[k] == json_text(items[k]),
    decreases items.len(),
{
    if items.len() > 0 {
        let shorter = items.drop_last();
        lemma_json_texts_at(shorter);
        assert forall|k: int| 0 <= k < items.len() implies #[trigger] json_texts(items)[k]
            == json_text(items[k]) by {
            if k < shorter.len() {
                assert(json_texts(shorter)[k] == json_text(shorter[k]));
            }
        }
    }
}

/// A member of an object in compact form.
spec fn member_text(member: (Seq<char>, Json)) -> Seq<char> {
    quoted_text(member.0) + ":"@ + json_text(member.1)
}

proof fn lemma_member_texts_at(members: Seq<(Seq<char>, Json)>)
    ensures
        member_texts(members).len() == members.len(),
        forall|k: int|
            0 <= k < members.len() ==> #[trigger] member_texts(members)[k] == member_text(
                members[k],
            ),
    decreases members.len(),
{
    if members.len() > 0 {
        let shorter = members.drop_last();
        lemma_member_texts_at(shorter);
        assert forall|k: int| 0 <= k < members.len() implies #[trigger] member_texts(members)[k]
            == member_text(members[k]) by {
            if k < shorter.len() {
                assert(member_texts(shorter)[k] == member_text(shorter[k]));
            }
        }
    }
}

/// The parts from place `k` on, the closing character, and what follows.
spec fn closed_from(parts: Seq<Seq<char>>, k: int, close: char, rest: Seq<char>) -> Seq<char> {
    listed_from(parts, k) + seq![close] + rest
}

/// What a list of parts goes on with at place `k`: the closing character, or the part there, with
/// a comma in front if it is not the first.
proof fn lemma_closed_from(parts: Seq<Seq<char>>, k: int, close: char, rest: Seq<char>)
    requires
        0 <= k <= parts.len(),
        close == ']' || close == '}',
    ensures
        k == parts.len() ==> closed_from(parts, k, close, rest) == seq![close] + rest,
        k < parts.len() ==> closed_from(parts, k, close, rest) == (if k == 0 {
            seq![]
        } else {
            seq![',']
        }) + (parts[k] + closed_from(parts, k + 1, close, rest)),
        k > 0 ==> ends_a_value(closed_from(parts, k, close, rest)),
{
    if k == parts.len() {
        assert(closed_from(parts, k, close, rest) =~= seq![close] + rest);
    } else {
        assert(closed_from(parts, k, close, rest) =~= (if k == 0 {
            seq![]
        } else {
            seq![',']
        }) + (parts[k] + closed_from(parts, k + 1, close, rest)));
    }
}

/// Two lists of parts that go on in the same way from place `k` on both end there, or both have a
/// part there.
proof fn lemma_same_next(
    xs: Seq<Seq<char>>,
    ys: Seq<Seq<char>>,
    k: int,
    close: char,
    r: Seq<char>,
    s: Seq<char>,
)
    requires
        0 <= k <= xs.len(),
        k <= ys.len(),
        close == ']' || close == '}',
        closed_from(xs, k, close, r) == closed_from(ys, k, close, s),
        k < xs.len() ==> xs[k].len() > 0 && xs[k][0] != close,
        k < ys.len() ==> ys[k].len() > 0 && ys[k][0] != close,
    ensures
        k == xs.len() <==> k == ys.len(),
        k == xs.len() ==> r == s,
        k < xs.len() ==> {
            &&& xs[k] + closed_from(xs, k + 1, close, r) == ys[k] + closed_from(ys, k + 1, close, s)
            &&& ends_a_value(closed_from(xs, k + 1, close, r))
            &&& ends_a_value(closed_from(ys, k + 1, close, s))
        },
{
    let comma = if k == 0 {
        seq![]
    } else {
        seq![',']
    };
    let left = closed_from(xs, k, close, r);
    let right = closed_from(ys, k, close, s);
    lemma_closed_from(xs, k, close, r);
    lemma_closed_from(ys, k, close, s);
    assert(k == xs.len() <==> left[0] == close);
    assert(k == ys.len() <==> right[0] == close);
    if k == xs.len() {
        lemma_same_parts(seq![close], r, seq![close], s);
    } else {
        let more = closed_from(xs, k + 1, close, r);
        let others = closed_from(ys, k + 1, close, s);
        lemma_closed_from(xs, k + 1, close, r);
        lemma_closed_from(ys, k + 1, close, s);
        lemma_same_parts(comma, xs[k] + more, comma, ys[k] + others);
    }
}

/// The end of a value is found, and what stands before it is the form of one value only.
proof fn lemma_value_is_prefix_free(a: Json, b: Json, r: Seq<char>, s: Seq<char>)
    requires
        json_text(a) + r == json_text(b) + s,
        ends_a_value(r),
        ends_a_value(s),
    ensures
        a == b,
        r == s,
    decreases a, 0int,
{
    lemma_opening(a);
    lemma_opening(b);
    assert((json_text(a) + r)[0] == json_text(a)[0]);
    assert((json_text(b) + s)[0] == json_text(b)[0]);
    match (a, b) {
        (Json::Number(m), Json::Number(n)) => {
            lemma_decimal_is_prefix_free(m, n, r, s);
        },
        (Json::Text(x), Json::Text(y)) => {
            lemma_quoted_is_prefix_free(x, y, r, s);
        },
        (Json::List(xs), Json::List(ys)) => {
            lemma_list_text(xs, r);
            lemma_list_text(ys, s);
            lemma_same_parts(
                seq!['['],
                closed_from(json_texts(xs), 0, ']', r),
                seq!['['],
                closed_from(json_texts(ys), 0, ']', s),
            );
            assert(xs.take(0) =~= ys.take(0));
            lemma_items_are_prefix_free(xs, ys, 0, r, s);
        },
        (Json::Object(xs), Json::Object(ys)) => {
            lemma_object_text(xs, r);
            lemma_object_text(ys, s);
            lemma_same_parts(
                seq!['{'],
                closed_from(member_texts(xs), 0, '}', r),
                seq!['{'],
                closed_from(member_texts(ys), 0, '}', s),
            );
            assert(xs.take(0) =~= ys.take(0));
            lemma_members_are_prefix_free(xs, ys, 0, r, s);
        },
        _ => {
            assert(a == b);
            lemma_same_parts(json_text(a), r, json_text(b), s);
        },
    }
}

proof fn lemma_list_text(items: Seq<Json>, rest: Seq<char>)
    ensures
        json_text(Json::List(items)) + rest == seq!['['] + closed_from(
            json_texts(items),
            0,
            ']',
            rest,
        ),
{
    reveal_strlit("[");
    reveal_strlit("]");
    assert("["@ =~= seq!['[']);
    assert("]"@ =~= seq![']']);
    lemma_listed(json_texts(items));
    assert(json_text(Json::List(items)) + rest =~= seq!['['] + closed_from(
        json_texts(items),
        0,
        ']',
        rest,
    ));
}

proof fn lemma_object_text(members: Seq<(Seq<char>, Json)>, rest: Seq<char>)
    ensures
        json_text(Json::Object(members)) + rest == seq!['{'] + closed_from(
            member_texts(members),
            0,
            '}',
            rest,
        ),
{
    reveal_strlit("{");
    reveal_strlit("}");
    assert("{"@ =~= seq!['{']);
    assert("}"@ =~= seq!['}']);
    lemma_listed(member_texts(members));
    assert(json_text(Json::Object(members)) + rest =~= seq!['{'] + closed_from(
        member_texts(members),
        0,
        '}',
        rest,
    ));
}

/// What is left of two lists from place `k` on, up to the closing bracket and beyond.
proof fn lemma_items_are_prefix_free(
    xs: Seq<Json>,
    ys: Seq<Json>,
    k: int,
    r: Seq<char>,
    s: Seq<char>,
)
    requires
        0 <= k <= xs.len(),
        k <= ys.len(),
        xs.take(k) == ys.take(k),
        closed_from(json_texts(xs), k, ']', r) == closed_from(json_texts(ys), k, ']', s),
    ensures
        xs == ys,
        r == s,
    decreases xs, xs.len() - k,
{
    lemma_json_texts_at(xs);
    lemma_json_texts_at(ys);
    if k < xs.len() {
        lemma_opening(xs[k]);
    }
    if k < ys.len() {
        lemma_opening(ys[k]);
    }
    lemma_same_next(json_texts(xs), json_texts(ys), k, ']', r, s);
    if k == xs.len() {
        assert(xs =~= xs.take(k) && ys =~= ys.take(k));
    } else {
        lemma_value_is_prefix_free(
            xs[k],
            ys[k],
            closed_from(json_texts(xs), k + 1, ']', r),
            closed_from(json_texts(ys), k + 1, ']', s),
        );
        assert(xs.take(k + 1) =~= xs.take(k).push(xs[k]));
        assert(ys.take(k + 1) =~= ys.take(k).push(ys[k]));
        lemma_items_are_prefix_free(xs, ys, k + 1, r, s);
    }
}

/// The key of a member is found: it ends in front of the colon.
proof fn lemma_member_splits(
    x: (Seq<char>, Json),
    y: (Seq<char>, Json),
    r: Seq<char>,
    s: Seq<char>,
)
    requires
        member_text(x) + r == member_text(y) + s,
    ensures
        x.0 == y.0,
        json_text(x.1) + r == json_text(y.1) + s,
{
    reveal_strlit(":");
    assert(":"@ =~= seq![':']);
    let value = json_text(x.1) + r;
    let other = json_text(y.1) + s;
    assert(member_text(x) + r =~= quoted_text(x.0) + (seq![':'] + value));
    assert(member_text(y) + s =~= quoted_text(y.0) + (seq![':'] + other));
    lemma_quoted_is_prefix_free(x.0, y.0, seq![':'] + value, seq![':'] + other);
    lemma_same_parts(seq![':'], value, seq![':'], other);
}

proof fn lemma_member_opening(member: (Seq<char>, Json))
    ensures
        member_text(member).len() > 0,
        member_text(member)[0] == '"',
{
    reveal_strlit("\"");
}

/// What is left of two objects from the member at place `k` on, up to the closing brace and
/// beyond.
proof fn lemma_members_are_prefix_free(
    xs: Seq<(Seq<char>, Json)>,
    ys: Seq<(Seq<char>, Json)>,
    k: int,
    r: Seq<char>,
    s: Seq<char>,
)
    requires
        0 <= k <= xs.len(),
        k <= ys.len(),
        xs.take(k) == ys.take(k),
        closed_from(member_texts(xs), k, '}', r) == closed_from(member_texts(ys), k, '}', s),
    ensures
        xs == ys,
        r == s,
    decreases xs, xs.len() - k,
{
    lemma_member_texts_at(xs);
    lemma_member_texts_at(ys);
    if k < xs.len() {
        lemma_member_opening(xs[k]);
    }
    if k < ys.len() {
        lemma_member_opening(ys[k]);
    }
    lemma_same_next(member_texts(xs), member_texts(ys), k, '}', r, s);
    if k == xs.len() {
        assert(xs =~= xs.take(k) && ys =~= ys.take(k));
    } else {
        let more = closed_from(member_texts(xs), k + 1, '}', r);
        let others = closed_from(member_texts(ys), k + 1, '}', s);
        lemma_member_splits(xs[k], ys[k], more, others);
        lemma_value_is_prefix_free(xs[k].1, ys[k].1, more, others);
        assert(xs.take(k + 1) =~= xs.take(k).push(xs[k]));
        assert(ys.take(k + 1) =~= ys.take(k).push(ys[k]));
        lemma_members_are_prefix_free(xs, ys, k + 1, r, s);
    }
}

/// The compact form of a JSON value is the form of no other value.
pub proof fn distinct_values_have_distinct_texts(a: Json, b: Json)
    requires
        json_text(a) == json_text(b),
    ensures
        a == b,
{
    assert(json_text(a) + seq![] =~= json_text(b) + seq![]);
    lemma_value_is_prefix_free(a, b, seq![], seq![]);
}

proof fn lemma_error_json_is_injective(a: Option<PhylumErrorView>, b: Option<PhylumErrorView>)
    requires
        error_json(a) == error_json(b),
    ensures
        a == b,
{
    reveal_strlit("parse");
    reveal_strlit("duplicate");
    reveal_strlit("check");
    if let (Some(x), Some(y)) = (a, b) {
        let xs = error_json(a)->Object_0;
        let ys = error_json(b)->Object_0;
        assert(xs[0] == ys[0] && xs[1] == ys[1] && xs[2] == ys[2]);
        assert(x.kind.tag() == y.kind.tag());
        assert(x.kind.tag().len() == y.kind.tag().len());
        if x.kind.tag().len() == 5 {
            assert(x.kind.tag()[0] == y.kind.tag()[0]);
        }
    }
}

proof fn lemma_verdict_json_is_injective(a: NoduleVerdictView, b: NoduleVerdictView)
    requires
        verdict_json(a) == verdict_json(b),
    ensures
        a == b,
{
    reveal_strlit("Clean");
    reveal_strlit("CheckError");
    reveal_strlit("Blocked");
    let xs = verdict_json(a)->Object_0;
    let ys = verdict_json(b)->Object_0;
    assert(xs[0] == ys[0] && xs[1] == ys[1] && xs[2] == ys[2]);
    assert(a.class.label() == b.class.label());
    assert(a.class.label().len() == b.class.label().len());
    if !(a.class is Clean) {
        assert(xs[3] == class_members(a.class)[0] && xs[4] == class_members(a.class)[1]);
        assert(ys[3] == class_members(b.class)[0] && ys[4] == class_members(b.class)[1]);
    }
}

/// A report can be told by its line: two reports with the same line are the same.
pub proof fn distinct_reports_have_distinct_lines(a: PhylumReportView, b: PhylumReportView)
    requires
        json_text(report_json(a)) == json_text(report_json(b)),
    ensures
        a == b,
{
    distinct_values_have_distinct_texts(report_json(a), report_json(b));
    let xs = report_json(a)->Object_0;
    let ys = report_json(b)->Object_0;
    assert(xs[1] == ys[1] && xs[2] == ys[2] && xs[3] == ys[3] && xs[4] == ys[4]);
    lemma_error_json_is_injective(a.error, b.error);
    let rows = xs[4].1->List_0;
    let others = ys[4].1->List_0;
    assert(rows.len() == a.nodules.len() && others.len() == b.nodules.len());
    assert forall|i: int| 0 <= i < a.nodules.len() implies a.nodules[i] == b.nodules[i] by {
        assert(rows[i] == verdict_json(a.nodules[i]));
        assert(others[i] == verdict_json(b.nodules[i]));
        lemma_verdict_json_is_injective(a.nodules[i], b.nodules[i]);
    }
    assert(a.nodules =~= b.nodules);
}

} // verus!
