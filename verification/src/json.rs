//! The machine-readable form of a phylum report: one JSON object on one line.

use vstd::prelude::*;
use vstd::string::*;

use crate::phylum::{
    NoduleClass, NoduleClassView, NoduleVerdict, NoduleVerdictView, PhylumError, PhylumErrorView,
    PhylumReport, PhylumReportView,
};
use crate::text::{chars_of, decimal, decimal_text, join, joined, texts};

verus! {

/// The hexadecimal digit for `d`, for `d < 16`.
pub open spec fn hex_digit(d: int) -> char {
    if d < 10 {
        (48 + d) as char
    } else {
        (87 + d) as char
    }
}

/// `n` in four hexadecimal digits.
pub open spec fn hex4(n: int) -> Seq<char> {
    seq![
        hex_digit(n / 4096 % 16),
        hex_digit(n / 256 % 16),
        hex_digit(n / 16 % 16),
        hex_digit(n % 16),
    ]
}

/// A character within a JSON string: quotes and backslashes behind a backslash, the common control
/// characters by their short escape, the other control characters by their number.
pub open spec fn escaped_char(c: char) -> Seq<char> {
    if c == '"' {
        seq!['\\', '"']
    } else if c == '\\' {
        seq!['\\', '\\']
    } else if c == '\n' {
        seq!['\\', 'n']
    } else if c == '\r' {
        seq!['\\', 'r']
    } else if c == '\t' {
        seq!['\\', 't']
    } else if (c as u32) < 0x20 {
        seq!['\\', 'u'] + hex4(c as int)
    } else {
        seq![c]
    }
}

/// A text within a JSON string.
pub open spec fn escaped(s: Seq<char>) -> Seq<char>
    decreases s.len(),
{
    if s.len() == 0 {
        seq![]
    } else {
        escaped_char(s[0]) + escaped(s.skip(1))
    }
}

/// Whether a text holds no control character, and so no line break.
pub open spec fn is_one_line(s: Seq<char>) -> bool {
    forall|i: int| 0 <= i < s.len() ==> (#[trigger] s[i]) as u32 >= 0x20
}

/// The value of a hexadecimal digit.
pub open spec fn hex_value(c: char) -> Option<int> {
    if '0' <= c <= '9' {
        Some(c as int - 48)
    } else if 'a' <= c <= 'f' {
        Some(c as int - 87)
    } else if 'A' <= c <= 'F' {
        Some(c as int - 55)
    } else {
        None
    }
}

/// What the inside of a JSON string stands for, by the grammar of JSON; `None` where it is not the
/// inside of a JSON string, or names half of a surrogate pair by number.
pub open spec fn unescaped(s: Seq<char>) -> Option<Seq<char>>
    decreases s.len(),
{
    if s.len() == 0 {
        Some(seq![])
    } else if s[0] == '"' || (s[0] as u32) < 0x20 {
        None
    } else if s[0] != '\\' {
        prepend(s[0], unescaped(s.skip(1)))
    } else if s.len() < 2 {
        None
    } else if s[1] == '"' || s[1] == '\\' || s[1] == '/' {
        prepend(s[1], unescaped(s.skip(2)))
    } else if s[1] == 'b' {
        prepend(8 as char, unescaped(s.skip(2)))
    } else if s[1] == 'f' {
        prepend(12 as char, unescaped(s.skip(2)))
    } else if s[1] == 'n' {
        prepend('\n', unescaped(s.skip(2)))
    } else if s[1] == 'r' {
        prepend('\r', unescaped(s.skip(2)))
    } else if s[1] == 't' {
        prepend('\t', unescaped(s.skip(2)))
    } else if s[1] == 'u' && s.len() >= 6 {
        match (hex_value(s[2]), hex_value(s[3]), hex_value(s[4]), hex_value(s[5])) {
            (Some(a), Some(b), Some(c), Some(d)) => {
                let n = a * 4096 + b * 256 + c * 16 + d;
                if 0xD800 <= n < 0xE000 {
                    None
                } else {
                    prepend(n as char, unescaped(s.skip(6)))
                }
            },
            _ => None,
        }
    } else {
        None
    }
}

/// The character in front of the text, if there is one.
pub open spec fn prepend(c: char, rest: Option<Seq<char>>) -> Option<Seq<char>> {
    match rest {
        Some(rest) => Some(seq![c] + rest),
        None => None,
    }
}

/// An escaped character in front of the inside of a JSON string stands for the character.
proof fn lemma_unescape_one(c: char, rest: Seq<char>)
    ensures
        unescaped(escaped_char(c) + rest) == prepend(c, unescaped(rest)),
{
    let e = escaped_char(c);
    let s = e + rest;
    assert(s.skip(e.len() as int) =~= rest);
    if (c as u32) < 0x20 && c != '\n' && c != '\r' && c != '\t' {
        let n = c as int;
        assert(n / 4096 % 16 == 0);
        assert(n / 256 % 16 == 0);
        assert(n == n / 16 % 16 * 16 + n % 16);
        assert(s[2] == hex_digit(n / 4096 % 16));
        assert(s[3] == hex_digit(n / 256 % 16));
        assert(s[4] == hex_digit(n / 16 % 16));
        assert(s[5] == hex_digit(n % 16));
    }
}

/// What goes into a JSON string comes out of it: reading the escaped text by the grammar of JSON
/// gives the text back.
pub proof fn escaping_is_undone_by_reading(s: Seq<char>)
    ensures
        unescaped(escaped(s)) == Some(s),
    decreases s.len(),
{
    if s.len() > 0 {
        escaping_is_undone_by_reading(s.skip(1));
        lemma_unescape_one(s[0], escaped(s.skip(1)));
        assert(seq![s[0]] + s.skip(1) =~= s);
    } else {
        assert(s =~= seq![]);
    }
}

/// An escaped text holds no control character.
pub proof fn escaped_text_is_one_line(s: Seq<char>)
    ensures
        is_one_line(escaped(s)),
    decreases s.len(),
{
    if s.len() > 0 {
        escaped_text_is_one_line(s.skip(1));
        let c = s[0];
        if (c as u32) < 0x20 {
            assert(0 <= c as int / 16 % 16 < 16);
        }
        assert(is_one_line(escaped_char(c)));
    }
}

/// Appends a character, escaped for the inside of a JSON string.
fn push_escaped(out: &mut String, c: char)
    ensures
        final(out)@ == old(out)@ + escaped_char(c),
{
    if c == '"' || c == '\\' {
        out.push('\\');
        out.push(c);
    } else if c == '\n' {
        out.push('\\');
        out.push('n');
    } else if c == '\r' {
        out.push('\\');
        out.push('r');
    } else if c == '\t' {
        out.push('\\');
        out.push('t');
    } else if (c as u32) < 0x20 {
        let n = c as u32;
        out.push('\\');
        out.push('u');
        out.push('0');
        out.push('0');
        out.push(hex_char((n / 16) as u8));
        out.push(hex_char((n % 16) as u8));
        assert(n as int / 4096 % 16 == 0);
        assert(n as int / 256 % 16 == 0);
        assert(n as int / 16 % 16 == n as int / 16);
    } else {
        out.push(c);
    }
    assert(out@ =~= old(out)@ + escaped_char(c));
}

/// Escapes a text for the inside of a JSON string, so that the result stays on one line.
pub fn json_escape(s: &str) -> (out: String)
    ensures
        out@ == escaped(s@),
{
    let mut out = String::new();
    let chars = chars_of(s);
    let mut i: usize = 0;
    assert(s@.skip(0) =~= s@);
    assert(out@ + escaped(s@) =~= escaped(s@));
    while i < chars.len()
        invariant
            i <= chars.len(),
            chars@ == s@,
            out@ + escaped(s@.skip(i as int)) == escaped(s@),
        decreases chars.len() - i,
    {
        let ghost before = out@;
        let c = chars[i];
        push_escaped(&mut out, c);
        assert(s@.skip(i as int).skip(1) =~= s@.skip(i + 1));
        assert(before + escaped_char(c) + escaped(s@.skip(i + 1)) =~= before + (escaped_char(c)
            + escaped(s@.skip(i + 1))));
        i += 1;
    }
    assert(out@ + escaped(s@.skip(i as int)) =~= out@);
    out
}

/// The hexadecimal digit for `d`.
fn hex_char(d: u8) -> (c: char)
    requires
        d < 16,
    ensures
        c == hex_digit(d as int),
{
    if d < 10 {
        (48u8 + d) as char
    } else {
        (87u8 + d) as char
    }
}

/// A JSON value.
pub enum Json {
    Null,
    Bool(bool),
    Number(nat),
    Text(Seq<char>),
    List(Seq<Json>),
    Object(Seq<(Seq<char>, Json)>),
}

/// A JSON string.
pub open spec fn quoted_text(s: Seq<char>) -> Seq<char> {
    "\""@ + escaped(s) + "\""@
}

/// A JSON value in compact form.
pub open spec fn json_text(value: Json) -> Seq<char>
    decreases value,
{
    match value {
        Json::Null => "null"@,
        Json::Bool(true) => "true"@,
        Json::Bool(false) => "false"@,
        Json::Number(n) => decimal(n),
        Json::Text(s) => quoted_text(s),
        Json::List(items) => "["@ + joined(json_texts(items), ","@) + "]"@,
        Json::Object(members) => "{"@ + joined(member_texts(members), ","@) + "}"@,
    }
}

/// The values of a list in compact form.
pub open spec fn json_texts(items: Seq<Json>) -> Seq<Seq<char>>
    decreases items,
{
    if items.len() == 0 {
        seq![]
    } else {
        json_texts(items.drop_last()).push(json_text(items.last()))
    }
}

/// The members of an object in compact form.
pub open spec fn member_texts(members: Seq<(Seq<char>, Json)>) -> Seq<Seq<char>>
    decreases members,
{
    if members.len() == 0 {
        seq![]
    } else {
        member_texts(members.drop_last()).push(
            quoted_text(members.last().0) + ":"@ + json_text(members.last().1),
        )
    }
}

/// The refusal of a report as a JSON value: `null`, or its kind, site and message.
pub open spec fn error_json(error: Option<PhylumErrorView>) -> Json {
    match error {
        None => Json::Null,
        Some(e) => Json::Object(
            seq![
                ("kind"@, Json::Text(e.kind.tag())),
                ("site"@, Json::Text(e.site)),
                ("message"@, Json::Text(e.message)),
            ],
        ),
    }
}

/// The members of a verdict's JSON object behind the class.
pub open spec fn class_members(class: NoduleClassView) -> Seq<(Seq<char>, Json)> {
    match class {
        NoduleClassView::Clean => seq![],
        NoduleClassView::CheckError { site, message } => seq![
            ("site"@, Json::Text(site)),
            ("message"@, Json::Text(message)),
        ],
        NoduleClassView::Blocked { on, message } => seq![
            ("on"@, Json::Text(on)),
            ("message"@, Json::Text(message)),
        ],
    }
}

/// A verdict as a JSON value: the nodule, its file, its class, and what the class carries.
pub open spec fn verdict_json(verdict: NoduleVerdictView) -> Json {
    Json::Object(
        seq![
            ("nodule"@, Json::Text(verdict.nodule)),
            ("file"@, Json::Text(verdict.file)),
            ("class"@, Json::Text(verdict.class.label())),
        ] + class_members(verdict.class),
    )
}

/// A phylum report as a JSON value.
pub open spec fn report_json(report: PhylumReportView) -> Json {
    Json::Object(
        seq![
            ("mode"@, Json::Text("phylum"@)),
            ("ok"@, Json::Bool(report.ok)),
            ("files_checked"@, Json::Number(report.files_checked)),
            ("error"@, error_json(report.error)),
            (
                "nodules"@,
                Json::List(report.nodules.map_values(|v: NoduleVerdictView| verdict_json(v))),
            ),
        ],
    )
}

/// Appending a member appends its text.
proof fn lemma_member_texts_push(members: Seq<(Seq<char>, Json)>, member: (Seq<char>, Json))
    ensures
        member_texts(members.push(member)) == member_texts(members).push(
            quoted_text(member.0) + ":"@ + json_text(member.1),
        ),
{
    assert(members.push(member).drop_last() =~= members);
}

/// A joined list of one-line texts, with a one-line separator, is one line.
proof fn lemma_joined_is_one_line(parts: Seq<Seq<char>>, sep: Seq<char>)
    requires
        is_one_line(sep),
        forall|i: int| 0 <= i < parts.len() ==> is_one_line(#[trigger] parts[i]),
    ensures
        is_one_line(joined(parts, sep)),
    decreases parts.len(),
{
    if parts.len() > 1 {
        let shorter = parts.drop_last();
        assert forall|i: int| 0 <= i < shorter.len() implies is_one_line(#[trigger] shorter[i]) by {
            assert(shorter[i] == parts[i]);
        }
        lemma_joined_is_one_line(shorter, sep);
        assert(is_one_line(parts[parts.len() - 1]));
    } else if parts.len() == 1 {
        assert(is_one_line(parts[0]));
    }
}

proof fn lemma_decimal_is_one_line(n: nat)
    ensures
        is_one_line(decimal(n)),
    decreases n,
{
    if n >= 10 {
        lemma_decimal_is_one_line(n / 10);
    }
}

proof fn lemma_quoted_is_one_line(s: Seq<char>)
    ensures
        is_one_line(quoted_text(s)),
{
    reveal_strlit("\"");
    escaped_text_is_one_line(s);
}

/// The compact form of a JSON value is one line, whatever texts it holds.
pub proof fn json_text_is_one_line(value: Json)
    ensures
        is_one_line(json_text(value)),
    decreases value,
{
    reveal_strlit("null");
    reveal_strlit("true");
    reveal_strlit("false");
    reveal_strlit("[");
    reveal_strlit("]");
    reveal_strlit("{");
    reveal_strlit("}");
    reveal_strlit(",");
    match value {
        Json::Null => {},
        Json::Bool(_) => {},
        Json::Number(n) => {
            lemma_decimal_is_one_line(n);
        },
        Json::Text(s) => {
            lemma_quoted_is_one_line(s);
        },
        Json::List(items) => {
            lemma_json_texts_are_one_line(items);
            lemma_joined_is_one_line(json_texts(items), ","@);
        },
        Json::Object(members) => {
            lemma_member_texts_are_one_line(members);
            lemma_joined_is_one_line(member_texts(members), ","@);
        },
    }
}

proof fn lemma_json_texts_are_one_line(items: Seq<Json>)
    ensures
        forall|i: int|
            0 <= i < json_texts(items).len() ==> is_one_line(#[trigger] json_texts(items)[i]),
    decreases items,
{
    if items.len() > 0 {
        let shorter = json_texts(items.drop_last());
        lemma_json_texts_are_one_line(items.drop_last());
        json_text_is_one_line(items.last());
        assert forall|i: int| 0 <= i < json_texts(items).len() implies is_one_line(
            #[trigger] json_texts(items)[i],
        ) by {
            if i < shorter.len() {
                assert(is_one_line(shorter[i]));
            }
        }
    }
}

proof fn lemma_member_texts_are_one_line(members: Seq<(Seq<char>, Json)>)
    ensures
        forall|i: int|
            0 <= i < member_texts(members).len() ==> is_one_line(
                #[trigger] member_texts(members)[i],
            ),
    decreases members,
{
    if members.len() > 0 {
        reveal_strlit(":");
        let shorter = member_texts(members.drop_last());
        lemma_member_texts_are_one_line(members.drop_last());
        lemma_quoted_is_one_line(members.last().0);
        json_text_is_one_line(members.last().1);
        assert forall|i: int| 0 <= i < member_texts(members).len() implies is_one_line(
            #[trigger] member_texts(members)[i],
        ) by {
            if i < shorter.len() {
                assert(is_one_line(shorter[i]));
            }
        }
    }
}

/// Writes a JSON string.
fn write_quoted(s: &str) -> (out: String)
    ensures
        out@ == quoted_text(s@),
{
    let mut out = "\"".to_owned();
    out.append(json_escape(s).as_str());
    out.append("\"");
    out
}

/// Writes a member of an object, with its value written already.
fn write_member(key: &str, value: &str) -> (out: String)
    ensures
        out@ == quoted_text(key@) + ":"@ + value@,
{
    let mut out = write_quoted(key);
    out.append(":");
    out.append(value);
    out
}

/// Appends a member whose value is a text.
fn push_text(members: &mut Vec<String>, key: &str, value: &str, Ghost(done): Ghost<
    Seq<(Seq<char>, Json)>,
>)
    requires
        texts(old(members)@) == member_texts(done),
    ensures
        texts(final(members)@) == member_texts(done.push((key@, Json::Text(value@)))),
{
    let member = write_member(key, write_quoted(value).as_str());
    members.push(member);
    proof {
        lemma_member_texts_push(done, (key@, Json::Text(value@)));
        assert(texts(members@) =~= texts(old(members)@).push(member@));
    }
}

/// Writes an object, with its members written already.
fn write_object(members: &Vec<String>) -> (out: String)
    ensures
        out@ == "{"@ + joined(texts(members@), ","@) + "}"@,
{
    let mut out = "{".to_owned();
    out.append(join(members, ",").as_str());
    out.append("}");
    out
}

/// Writes a report's refusal.
fn write_error(error: &Option<PhylumError>) -> (out: String)
    ensures
        out@ == json_text(
            error_json(
                match *error {
                    Some(e) => Some(e@),
                    None => None,
                },
            ),
        ),
{
    match error {
        None => "null".to_owned(),
        Some(e) => {
            let mut members: Vec<String> = Vec::new();
            let ghost done: Seq<(Seq<char>, Json)> = seq![];
            assert(texts(members@) =~= member_texts(done));
            push_text(&mut members, "kind", e.kind.as_str(), Ghost(done));
            let ghost done = done.push(("kind"@, Json::Text(e.kind.tag())));
            push_text(&mut members, "site", e.site.as_str(), Ghost(done));
            let ghost done = done.push(("site"@, Json::Text(e.site@)));
            push_text(&mut members, "message", e.message.as_str(), Ghost(done));
            let ghost done = done.push(("message"@, Json::Text(e.message@)));
            assert(done =~= seq![
                ("kind"@, Json::Text(e.kind.tag())),
                ("site"@, Json::Text(e.site@)),
                ("message"@, Json::Text(e.message@)),
            ]);
            write_object(&members)
        },
    }
}

/// Writes a verdict.
fn write_verdict(verdict: &NoduleVerdict) -> (out: String)
    ensures
        out@ == json_text(verdict_json(verdict@)),
{
    let mut members: Vec<String> = Vec::new();
    let ghost start: Seq<(Seq<char>, Json)> = seq![];
    assert(texts(members@) =~= member_texts(start));
    push_text(&mut members, "nodule", verdict.nodule.as_str(), Ghost(start));
    let ghost one = start.push(("nodule"@, Json::Text(verdict.nodule@)));
    push_text(&mut members, "file", verdict.file.as_str(), Ghost(one));
    let ghost two = one.push(("file"@, Json::Text(verdict.file@)));
    push_text(&mut members, "class", verdict.class.label(), Ghost(two));
    let ghost base = two.push(("class"@, Json::Text(verdict.class@.label())));
    let ghost mut done = base;
    match &verdict.class {
        NoduleClass::Clean => {},
        NoduleClass::CheckError { site, message } => {
            push_text(&mut members, "site", site.as_str(), Ghost(done));
            proof {
                done = done.push(("site"@, Json::Text(site@)));
            }
            push_text(&mut members, "message", message.as_str(), Ghost(done));
            proof {
                done = done.push(("message"@, Json::Text(message@)));
            }
        },
        NoduleClass::Blocked { on, message } => {
            push_text(&mut members, "on", on.as_str(), Ghost(done));
            proof {
                done = done.push(("on"@, Json::Text(on@)));
            }
            push_text(&mut members, "message", message.as_str(), Ghost(done));
            proof {
                done = done.push(("message"@, Json::Text(message@)));
            }
        },
    }
    assert(done =~= base + class_members(verdict.class@));
    assert(base =~= seq![
        ("nodule"@, Json::Text(verdict.nodule@)),
        ("file"@, Json::Text(verdict.file@)),
        ("class"@, Json::Text(verdict.class@.label())),
    ]);
    write_object(&members)
}

/// Writes a list of verdicts.
fn write_verdicts(verdicts: &Vec<NoduleVerdict>) -> (out: String)
    ensures
        out@ == json_text(
            Json::List(
                crate::phylum::verdicts_view(verdicts@).map_values(
                    |v: NoduleVerdictView| verdict_json(v),
                ),
            ),
        ),
{
    let ghost items = crate::phylum::verdicts_view(verdicts@).map_values(
        |v: NoduleVerdictView| verdict_json(v),
    );
    let mut rows: Vec<String> = Vec::new();
    let mut i: usize = 0;
    assert(texts(rows@) =~= json_texts(items.take(0)));
    while i < verdicts.len()
        invariant
            i <= verdicts.len(),
            items == crate::phylum::verdicts_view(verdicts@).map_values(
                |v: NoduleVerdictView| verdict_json(v),
            ),
            texts(rows@) == json_texts(items.take(i as int)),
        decreases verdicts.len() - i,
    {
        let row = write_verdict(&verdicts[i]);
        let ghost before = rows@;
        rows.push(row);
        assert(texts(rows@) =~= texts(before).push(row@));
        assert(items.take(i + 1).drop_last() =~= items.take(i as int));
        assert(items.take(i + 1).last() == verdict_json(verdicts@[i as int]@));
        i += 1;
    }
    assert(items.take(verdicts.len() as int) =~= items);
    let mut out = "[".to_owned();
    out.append(join(&rows, ",").as_str());
    out.append("]");
    out
}

/// The stable machine-readable form of a phylum report: one line, one JSON object.
pub fn phylum_report_json(report: &PhylumReport) -> (line: String)
    ensures
        line@ == json_text(report_json(report@)),
        is_one_line(line@),
{
    let mut members: Vec<String> = Vec::new();
    let ghost done: Seq<(Seq<char>, Json)> = seq![];
    assert(texts(members@) =~= member_texts(done));
    push_text(&mut members, "mode", "phylum", Ghost(done));
    let ghost done = done.push(("mode"@, Json::Text("phylum"@)));
    let ok = if report.ok {
        "true"
    } else {
        "false"
    };
    push_written(&mut members, "ok", ok, Ghost(done), Ghost(Json::Bool(report.ok)));
    let ghost done = done.push(("ok"@, Json::Bool(report.ok)));
    push_written(
        &mut members,
        "files_checked",
        decimal_text(report.files_checked).as_str(),
        Ghost(done),
        Ghost(Json::Number(report.files_checked as nat)),
    );
    let ghost done = done.push(("files_checked"@, Json::Number(report.files_checked as nat)));
    push_written(
        &mut members,
        "error",
        write_error(&report.error).as_str(),
        Ghost(done),
        Ghost(error_json(report@.error)),
    );
    let ghost done = done.push(("error"@, error_json(report@.error)));
    let ghost list = Json::List(
        report@.nodules.map_values(|v: NoduleVerdictView| verdict_json(v)),
    );
    push_written(
        &mut members,
        "nodules",
        write_verdicts(&report.nodules).as_str(),
        Ghost(done),
        Ghost(list),
    );
    let ghost done = done.push(("nodules"@, list));
    proof {
        assert(done =~= report_json(report@)->Object_0);
        json_text_is_one_line(report_json(report@));
    }
    write_object(&members)
}

/// Appends a member whose value is written already.
fn push_written(
    members: &mut Vec<String>,
    key: &str,
    value: &str,
    Ghost(done): Ghost<Seq<(Seq<char>, Json)>>,
    Ghost(json): Ghost<Json>,
)
    requires
        texts(old(members)@) == member_texts(done),
        value@ == json_text(json),
    ensures
        texts(final(members)@) == member_texts(done.push((key@, json))),
{
    let member = write_member(key, value);
    members.push(member);
    proof {
        lemma_member_texts_push(done, (key@, json));
        assert(texts(members@) =~= texts(old(members)@).push(member@));
    }
}

} // verus!
