//! Laws of the machine-readable line.

use vstd::prelude::*;
use vstd::string::*;

use crate::json::{
    class_members, error_json, escaped, escaped_char, hex_digit, json_text, json_texts,
    member_texts, quoted_text, report_json, verdict_json, Json,
};
use crate::laws::texts::joining_goes_part_by_part;
use crate::phylum::{
    NoduleClassView, NoduleVerdictView, PhylumErrorKind, PhylumErrorView, PhylumReportView,
};
use crate::text::{decimal, joined};

verus! {

/// A text is escaped character by character.
pub proof fn texts_are_escaped_character_by_character(a: Seq<char>, b: Seq<char>, c: char)
    ensures
        escaped(a + b) == escaped(a) + escaped(b),
        escaped(seq![]).len() == 0,
        escaped(seq![c]) == escaped_char(c),
    decreases a.len(),
{
    let one = seq![c];
    assert(one.skip(1) =~= Seq::<char>::empty());
    assert(escaped(one.skip(1)) =~= Seq::<char>::empty());
    assert(escaped(one) =~= escaped_char(c));
    if a.len() == 0 {
        assert(a + b =~= b);
        assert(escaped(a) + escaped(b) =~= escaped(b));
    } else {
        texts_are_escaped_character_by_character(a.skip(1), b, c);
        assert((a + b).skip(1) =~= a.skip(1) + b);
        assert((a + b)[0] == a[0]);
        assert(escaped(a + b) =~= escaped(a) + escaped(b));
    }
}

/// Quotes and backslashes stand behind a backslash, line breaks, carriage returns and tabs by their
/// letter, the other control characters by their number in four lower-case hexadecimal digits; every
/// other character stands for itself.
pub proof fn a_character_is_escaped_where_it_must_be(c: char)
    ensures
        c == '"' ==> escaped_char(c) == seq!['\\', '"'],
        c == '\\' ==> escaped_char(c) == seq!['\\', '\\'],
        c == '\n' ==> escaped_char(c) == seq!['\\', 'n'],
        c == '\r' ==> escaped_char(c) == seq!['\\', 'r'],
        c == '\t' ==> escaped_char(c) == seq!['\\', 't'],
        c as int >= 0x20 && c != '"' && c != '\\' ==> escaped_char(c) == seq![c],
        (c as int) < 0x20 && c != '\n' && c != '\r' && c != '\t' ==> {
            let d = seq![
                '0',
                '1',
                '2',
                '3',
                '4',
                '5',
                '6',
                '7',
                '8',
                '9',
                'a',
                'b',
                'c',
                'd',
                'e',
                'f',
            ];
            escaped_char(c) == seq!['\\', 'u', '0', '0', d[c as int / 16], d[c as int % 16]]
        },
{
    if (c as int) < 0x20 {
        let n = c as int;
        assert(n / 4096 % 16 == 0);
        assert(n / 256 % 16 == 0);
        assert(n / 16 % 16 == n / 16);
        assert(0 <= n / 16 < 2);
        assert(0 <= n % 16 < 16);
        lemma_hex_digits();
        if c != '\n' && c != '\r' && c != '\t' {
            let d = hex_digits();
            assert(hex_digit(n / 16) == d[n / 16]);
            assert(hex_digit(n % 16) == d[n % 16]);
            assert(hex_digit(0) == d[0]);
            assert(escaped_char(c) =~= seq!['\\', 'u', '0', '0', d[n / 16], d[n % 16]]);
        }
    }
}

spec fn hex_digits() -> Seq<char> {
    seq!['0', '1', '2', '3', '4', '5', '6', '7', '8', '9', 'a', 'b', 'c', 'd', 'e', 'f']
}

proof fn lemma_hex_digits()
    ensures
        forall|k: int| 0 <= k < 16 ==> #[trigger] hex_digits()[k] == hex_digit(k),
{
    let d = hex_digits();
    assert(d[0] == hex_digit(0) && d[1] == hex_digit(1) && d[2] == hex_digit(2));
    assert(d[3] == hex_digit(3) && d[4] == hex_digit(4) && d[5] == hex_digit(5));
    assert(d[6] == hex_digit(6) && d[7] == hex_digit(7) && d[8] == hex_digit(8));
    assert(d[9] == hex_digit(9) && d[10] == hex_digit(10) && d[11] == hex_digit(11));
    assert(d[12] == hex_digit(12) && d[13] == hex_digit(13) && d[14] == hex_digit(14));
    assert(d[15] == hex_digit(15));
}

/// A text as a machine reads it: escaped, between quotes.
pub open spec fn in_quotes(s: Seq<char>) -> Seq<char> {
    seq!['"'] + escaped(s) + seq!['"']
}

proof fn lemma_quoted(s: Seq<char>)
    ensures
        quoted_text(s) == in_quotes(s),
{
    reveal_strlit("\"");
    assert("\""@ =~= seq!['"']);
}

/// A key with nothing to escape stands between quotes as it is.
proof fn lemma_plain(s: Seq<char>)
    requires
        is_plain(s),
    ensures
        escaped(s) == s,
    decreases s.len(),
{
    if s.len() > 0 {
        let rest = s.skip(1);
        assert(s[0] as int >= 0x20);
        assert forall|i: int| 0 <= i < rest.len() implies (#[trigger] rest[i]) as int >= 0x20
            && rest[i] != '"' && rest[i] != '\\' by {
            assert(s[i + 1] as int >= 0x20);
        }
        lemma_plain(rest);
        lemma_plain_character(s[0]);
        assert(seq![s[0]] + rest =~= s);
    } else {
        assert(escaped(s) =~= s);
    }
}

proof fn lemma_plain_character(c: char)
    requires
        c as int >= 0x20,
        c != '"',
        c != '\\',
    ensures
        escaped_char(c) == seq![c],
{
}

/// What a member is written as.
spec fn member(key: Seq<char>, value: Seq<char>) -> Seq<char> {
    seq!['"'] + key + seq!['"', ':'] + value
}

proof fn lemma_member(key: Seq<char>, value: Seq<char>)
    requires
        is_plain(key),
    ensures
        quoted_text(key) + ":"@ + value == member(key, value),
{
    reveal_strlit(":");
    lemma_plain(key);
    lemma_quoted(key);
    assert(":"@ =~= seq![':']);
    assert(quoted_text(key) + ":"@ + value =~= member(key, value));
}

proof fn lemma_members_push(all: Seq<(Seq<char>, Json)>, x: (Seq<char>, Json))
    requires
        all.len() > 0,
    ensures
        joined(member_texts(all.push(x)), ","@) == joined(member_texts(all), ","@) + seq![','] + (
        quoted_text(x.0) + ":"@ + json_text(x.1)),
        member_texts(all).len() == all.len(),
    decreases all.len(),
{
    reveal_strlit(",");
    assert(","@ =~= seq![',']);
    let one = quoted_text(x.0) + ":"@ + json_text(x.1);
    assert(all.push(x).drop_last() =~= all);
    assert(member_texts(all.push(x)) == member_texts(all).push(one));
    assert(member_texts(all).push(one) =~= member_texts(all) + seq![one]);
    lemma_members_len(all);
    joining_goes_part_by_part(member_texts(all), seq![one], ","@);
    joining_goes_part_by_part(seq![one], member_texts(all), ","@);
}

proof fn lemma_members_len(all: Seq<(Seq<char>, Json)>)
    ensures
        member_texts(all).len() == all.len(),
    decreases all.len(),
{
    if all.len() > 0 {
        lemma_members_len(all.drop_last());
    }
}

proof fn lemma_members_one(x: (Seq<char>, Json))
    ensures
        joined(member_texts(seq![x]), ","@) == quoted_text(x.0) + ":"@ + json_text(x.1),
{
    let none = Seq::<(Seq<char>, Json)>::empty();
    let one = quoted_text(x.0) + ":"@ + json_text(x.1);
    assert(seq![x].drop_last() =~= none);
    assert(member_texts(none) =~= Seq::<Seq<char>>::empty());
    assert(member_texts(seq![x]) =~= seq![one]);
    joining_goes_part_by_part(seq![one], seq![one], ","@);
}

/// The refusal of a report for a machine: nothing, or its kind, its site and its message.
pub open spec fn machine_error(error: Option<PhylumErrorView>) -> Seq<char> {
    match error {
        None => "null"@,
        Some(e) => (match e.kind {
            PhylumErrorKind::Parse => "{\"kind\":\"parse\",\"site\":"@,
            PhylumErrorKind::Duplicate => "{\"kind\":\"duplicate\",\"site\":"@,
            PhylumErrorKind::Check => "{\"kind\":\"check\",\"site\":"@,
        }) + in_quotes(e.site) + ",\"message\":"@ + in_quotes(e.message) + "}"@,
    }
}

/// A verdict for a machine: the nodule, its file, its class, and what the class carries.
pub open spec fn machine_verdict(v: NoduleVerdictView) -> Seq<char> {
    "{\"nodule\":"@ + in_quotes(v.nodule) + ",\"file\":"@ + in_quotes(v.file) + match v.class {
        NoduleClassView::Clean => ",\"class\":\"Clean\"}"@,
        NoduleClassView::CheckError { site, message } => ",\"class\":\"CheckError\",\"site\":"@
            + in_quotes(site) + ",\"message\":"@ + in_quotes(message) + "}"@,
        NoduleClassView::Blocked { on, message } => ",\"class\":\"Blocked\",\"on\":"@ + in_quotes(
            on,
        ) + ",\"message\":"@ + in_quotes(message) + "}"@,
    }
}

/// The refusal of a report is told to a machine by its kind, its site and its message, each under
/// its own key.
pub proof fn a_machine_is_told_the_refusal(error: Option<PhylumErrorView>)
    ensures
        json_text(error_json(error)) == machine_error(error),
{
    if let Some(e) = error {
        let kind = ("kind"@, Json::Text(e.kind.tag()));
        let one = seq![kind];
        let two = one.push(("site"@, Json::Text(e.site)));
        let three = two.push(("message"@, Json::Text(e.message)));
        assert(error_json(error)->Object_0 =~= three);
        lemma_refusal_keys(e.kind);
        lemma_members_one(kind);
        lemma_member("kind"@, json_text(kind.1));
        lemma_quoted(e.kind.tag());
        lemma_text_member(one, "site"@, e.site);
        lemma_text_member(two, "message"@, e.message);
        lemma_refusal_text(e);
    }
}

proof fn lemma_refusal_keys(kind: PhylumErrorKind)
    ensures
        is_plain("kind"@),
        is_plain("site"@),
        is_plain("message"@),
        escaped(kind.tag()) == kind.tag(),
{
    reveal_strlit("kind");
    reveal_strlit("site");
    reveal_strlit("message");
    reveal_strlit("parse");
    reveal_strlit("duplicate");
    reveal_strlit("check");
    lemma_plain(kind.tag());
}

/// Whether a text holds nothing to escape.
spec fn is_plain(s: Seq<char>) -> bool {
    forall|i: int|
        0 <= i < s.len() ==> (#[trigger] s[i]) as int >= 0x20 && s[i] != '"' && s[i] != '\\'
}

proof fn lemma_refusal_text(e: PhylumErrorView)
    requires
        escaped(e.kind.tag()) == e.kind.tag(),
    ensures
        "{"@ + (member("kind"@, in_quotes(e.kind.tag())) + seq![','] + member(
            "site"@,
            in_quotes(e.site),
        ) + seq![','] + member("message"@, in_quotes(e.message))) + "}"@ == machine_error(Some(e)),
{
    reveal_strlit("message");
    reveal_strlit(",\"message\":");
    lemma_refusal_head(e.kind);
    let head = "{"@ + member("kind"@, in_quotes(e.kind.tag())) + seq![',', '"'] + "site"@ + seq![
        '"',
        ':',
    ];
    assert(seq![',', '"'] + "message"@ + seq!['"', ':'] =~= ",\"message\":"@);
    assert("{"@ + (member("kind"@, in_quotes(e.kind.tag())) + seq![','] + member(
        "site"@,
        in_quotes(e.site),
    ) + seq![','] + member("message"@, in_quotes(e.message))) + "}"@ =~= head + in_quotes(e.site) + (
    seq![',', '"'] + "message"@ + seq!['"', ':']) + in_quotes(e.message) + "}"@);
}

proof fn lemma_refusal_head(kind: PhylumErrorKind)
    requires
        escaped(kind.tag()) == kind.tag(),
    ensures
        "{"@ + member("kind"@, in_quotes(kind.tag())) + seq![',', '"'] + "site"@ + seq!['"', ':']
            == (match kind {
            PhylumErrorKind::Parse => "{\"kind\":\"parse\",\"site\":"@,
            PhylumErrorKind::Duplicate => "{\"kind\":\"duplicate\",\"site\":"@,
            PhylumErrorKind::Check => "{\"kind\":\"check\",\"site\":"@,
        }),
{
    reveal_strlit("{");
    reveal_strlit("kind");
    reveal_strlit("site");
    reveal_strlit("parse");
    reveal_strlit("duplicate");
    reveal_strlit("check");
    reveal_strlit("{\"kind\":\"parse\",\"site\":");
    reveal_strlit("{\"kind\":\"duplicate\",\"site\":");
    reveal_strlit("{\"kind\":\"check\",\"site\":");
    let head = "{"@ + member("kind"@, in_quotes(kind.tag())) + seq![',', '"'] + "site"@ + seq![
        '"',
        ':',
    ];
    match kind {
        PhylumErrorKind::Parse => {
            assert(head =~= "{\"kind\":\"parse\",\"site\":"@);
        },
        PhylumErrorKind::Duplicate => {
            assert(head =~= "{\"kind\":\"duplicate\",\"site\":"@);
        },
        PhylumErrorKind::Check => {
            assert(head =~= "{\"kind\":\"check\",\"site\":"@);
        },
    }
}

/// A list of keyed texts, joined.
proof fn lemma_text_member(all: Seq<(Seq<char>, Json)>, key: Seq<char>, value: Seq<char>)
    requires
        all.len() > 0,
        is_plain(key),
    ensures
        joined(member_texts(all.push((key, Json::Text(value)))), ","@) == joined(
            member_texts(all),
            ","@,
        ) + seq![','] + member(key, in_quotes(value)),
{
    lemma_members_push(all, (key, Json::Text(value)));
    lemma_member(key, json_text(Json::Text(value)));
    lemma_quoted(value);
}

/// A verdict is told to a machine by its nodule, its file and its class, and what the class carries:
/// the site and the message of an error, what a blocked nodule is blocked on and the message.
pub proof fn a_machine_is_told_the_verdict(v: NoduleVerdictView)
    ensures
        json_text(verdict_json(v)) == machine_verdict(v),
{
    reveal_strlit("nodule");
    reveal_strlit("file");
    reveal_strlit("class");
    reveal_strlit("site");
    reveal_strlit("on");
    reveal_strlit("message");
    reveal_strlit("Clean");
    reveal_strlit("CheckError");
    reveal_strlit("Blocked");
    let nodule = ("nodule"@, Json::Text(v.nodule));
    let file = ("file"@, Json::Text(v.file));
    let class = ("class"@, Json::Text(v.class.label()));
    let one = seq![nodule];
    let two = one.push(file);
    let three = two.push(class);
    assert(three =~= seq![nodule, file, class]);
    lemma_members_one(nodule);
    lemma_member("nodule"@, json_text(nodule.1));
    lemma_quoted(v.nodule);
    lemma_text_member(one, "file"@, v.file);
    lemma_text_member(two, "class"@, v.class.label());
    lemma_plain(v.class.label());
    let base = member("nodule"@, in_quotes(v.nodule)) + seq![','] + member(
        "file"@,
        in_quotes(v.file),
    ) + seq![','] + member("class"@, in_quotes(v.class.label()));
    assert(joined(member_texts(three), ","@) == base);
    lemma_verdict_head(v, base);
    match v.class {
        NoduleClassView::Clean => {
            assert(seq![nodule, file, class] + class_members(v.class) =~= three);
            lemma_clean_tail(v, base);
        },
        NoduleClassView::CheckError { site, message } => {
            let four = three.push(("site"@, Json::Text(site)));
            let five = four.push(("message"@, Json::Text(message)));
            assert(seq![nodule, file, class] + class_members(v.class) =~= five);
            lemma_text_member(three, "site"@, site);
            lemma_text_member(four, "message"@, message);
            lemma_error_tail(v, base, site, message);
        },
        NoduleClassView::Blocked { on, message } => {
            let four = three.push(("on"@, Json::Text(on)));
            let five = four.push(("message"@, Json::Text(message)));
            assert(seq![nodule, file, class] + class_members(v.class) =~= five);
            lemma_text_member(three, "on"@, on);
            lemma_text_member(four, "message"@, message);
            lemma_blocked_tail(v, base, on, message);
        },
    }
}

/// The members that every verdict has.
spec fn verdict_head(v: NoduleVerdictView) -> Seq<char> {
    "{\"nodule\":"@ + in_quotes(v.nodule) + ",\"file\":"@ + in_quotes(v.file)
}

proof fn lemma_verdict_head(v: NoduleVerdictView, base: Seq<char>)
    requires
        base == member("nodule"@, in_quotes(v.nodule)) + seq![','] + member(
            "file"@,
            in_quotes(v.file),
        ) + seq![','] + member("class"@, in_quotes(v.class.label())),
    ensures
        "{"@ + base == verdict_head(v) + (seq![',', '"'] + "class"@ + seq!['"', ':'] + in_quotes(
            v.class.label(),
        )),
{
    reveal_strlit("{");
    reveal_strlit("nodule");
    reveal_strlit("file");
    reveal_strlit("{\"nodule\":");
    reveal_strlit(",\"file\":");
    assert("{"@ + seq!['"'] + "nodule"@ + seq!['"', ':'] =~= "{\"nodule\":"@);
    assert(seq![',', '"'] + "file"@ + seq!['"', ':'] =~= ",\"file\":"@);
    assert("{"@ + base =~= ("{"@ + seq!['"'] + "nodule"@ + seq!['"', ':']) + in_quotes(v.nodule) + (
    seq![',', '"'] + "file"@ + seq!['"', ':']) + in_quotes(v.file) + (seq![',', '"'] + "class"@
        + seq!['"', ':'] + in_quotes(v.class.label())));
}

proof fn lemma_clean_tail(v: NoduleVerdictView, base: Seq<char>)
    requires
        v.class is Clean,
        "{"@ + base == verdict_head(v) + (seq![',', '"'] + "class"@ + seq!['"', ':'] + in_quotes(
            v.class.label(),
        )),
        escaped(v.class.label()) == v.class.label(),
    ensures
        "{"@ + base + "}"@ == machine_verdict(v),
{
    reveal_strlit("}");
    reveal_strlit("class");
    reveal_strlit("Clean");
    reveal_strlit(",\"class\":\"Clean\"}");
    assert(seq![',', '"'] + "class"@ + seq!['"', ':'] + in_quotes("Clean"@) + "}"@
        =~= ",\"class\":\"Clean\"}"@);
    assert("{"@ + base + "}"@ =~= verdict_head(v) + ",\"class\":\"Clean\"}"@);
}

proof fn lemma_error_tail(
    v: NoduleVerdictView,
    base: Seq<char>,
    site: Seq<char>,
    message: Seq<char>,
)
    requires
        v.class == (NoduleClassView::CheckError { site, message }),
        "{"@ + base == verdict_head(v) + (seq![',', '"'] + "class"@ + seq!['"', ':'] + in_quotes(
            v.class.label(),
        )),
        escaped(v.class.label()) == v.class.label(),
    ensures
        "{"@ + (base + seq![','] + member("site"@, in_quotes(site)) + seq![','] + member(
            "message"@,
            in_quotes(message),
        )) + "}"@ == machine_verdict(v),
{
    reveal_strlit("class");
    reveal_strlit("site");
    reveal_strlit("message");
    reveal_strlit("CheckError");
    reveal_strlit(",\"class\":\"CheckError\",\"site\":");
    reveal_strlit(",\"message\":");
    let class = seq![',', '"'] + "class"@ + seq!['"', ':'] + in_quotes("CheckError"@);
    assert(class + seq![',', '"'] + "site"@ + seq!['"', ':']
        =~= ",\"class\":\"CheckError\",\"site\":"@);
    assert(seq![',', '"'] + "message"@ + seq!['"', ':'] =~= ",\"message\":"@);
    assert("{"@ + (base + seq![','] + member("site"@, in_quotes(site)) + seq![','] + member(
        "message"@,
        in_quotes(message),
    )) + "}"@ =~= ("{"@ + base) + (seq![',', '"'] + "site"@ + seq!['"', ':']) + in_quotes(site) + (
    seq![',', '"'] + "message"@ + seq!['"', ':']) + in_quotes(message) + "}"@);
    assert(("{"@ + base) + (seq![',', '"'] + "site"@ + seq!['"', ':']) =~= verdict_head(v) + (class
        + seq![',', '"'] + "site"@ + seq!['"', ':']));
    assert(machine_verdict(v) =~= verdict_head(v) + ",\"class\":\"CheckError\",\"site\":"@
        + in_quotes(site) + ",\"message\":"@ + in_quotes(message) + "}"@);
}

proof fn lemma_blocked_tail(
    v: NoduleVerdictView,
    base: Seq<char>,
    on: Seq<char>,
    message: Seq<char>,
)
    requires
        v.class == (NoduleClassView::Blocked { on, message }),
        "{"@ + base == verdict_head(v) + (seq![',', '"'] + "class"@ + seq!['"', ':'] + in_quotes(
            v.class.label(),
        )),
        escaped(v.class.label()) == v.class.label(),
    ensures
        "{"@ + (base + seq![','] + member("on"@, in_quotes(on)) + seq![','] + member(
            "message"@,
            in_quotes(message),
        )) + "}"@ == machine_verdict(v),
{
    reveal_strlit("class");
    reveal_strlit("on");
    reveal_strlit("message");
    reveal_strlit("Blocked");
    reveal_strlit(",\"class\":\"Blocked\",\"on\":");
    reveal_strlit(",\"message\":");
    let class = seq![',', '"'] + "class"@ + seq!['"', ':'] + in_quotes("Blocked"@);
    assert(class + seq![',', '"'] + "on"@ + seq!['"', ':']
        =~= ",\"class\":\"Blocked\",\"on\":"@);
    assert(seq![',', '"'] + "message"@ + seq!['"', ':'] =~= ",\"message\":"@);
    assert("{"@ + (base + seq![','] + member("on"@, in_quotes(on)) + seq![','] + member(
        "message"@,
        in_quotes(message),
    )) + "}"@ =~= ("{"@ + base) + (seq![',', '"'] + "on"@ + seq!['"', ':']) + in_quotes(on) + (
    seq![',', '"'] + "message"@ + seq!['"', ':']) + in_quotes(message) + "}"@);
    assert(("{"@ + base) + (seq![',', '"'] + "on"@ + seq!['"', ':']) =~= verdict_head(v) + (class
        + seq![',', '"'] + "on"@ + seq!['"', ':']));
    assert(machine_verdict(v) =~= verdict_head(v) + ",\"class\":\"Blocked\",\"on\":"@ + in_quotes(
        on,
    ) + ",\"message\":"@ + in_quotes(message) + "}"@);
}

proof fn lemma_rows(verdicts: Seq<NoduleVerdictView>)
    ensures
        json_texts(verdicts.map_values(|v: NoduleVerdictView| verdict_json(v)))
            == verdicts.map_values(|v: NoduleVerdictView| machine_verdict(v)),
    decreases verdicts.len(),
{
    let rows = verdicts.map_values(|v: NoduleVerdictView| verdict_json(v));
    if verdicts.len() > 0 {
        let shorter = verdicts.drop_last();
        lemma_rows(shorter);
        assert(rows.drop_last() =~= shorter.map_values(|v: NoduleVerdictView| verdict_json(v)));
        a_machine_is_told_the_verdict(verdicts.last());
        assert(rows.last() == verdict_json(verdicts.last()));
    }
    assert(json_texts(rows) =~= verdicts.map_values(|v: NoduleVerdictView| machine_verdict(v)));
}

/// A report is told to a machine in one object: that it is on a phylum, whether the phylum is good,
/// how many files were checked, the refusal, and the verdicts in their order, each under its own
/// key.
pub proof fn a_machine_is_told_the_report(report: PhylumReportView)
    ensures
        json_text(report_json(report)) == (if report.ok {
            "{\"mode\":\"phylum\",\"ok\":true,\"files_checked\":"@
        } else {
            "{\"mode\":\"phylum\",\"ok\":false,\"files_checked\":"@
        }) + decimal(report.files_checked) + ",\"error\":"@ + machine_error(report.error)
            + ",\"nodules\":["@ + joined(
            report.nodules.map_values(|v: NoduleVerdictView| machine_verdict(v)),
            ","@,
        ) + "]}"@,
{
    reveal_strlit("mode");
    reveal_strlit("phylum");
    reveal_strlit("ok");
    reveal_strlit("files_checked");
    reveal_strlit("error");
    reveal_strlit("nodules");
    let rows = Json::List(report.nodules.map_values(|v: NoduleVerdictView| verdict_json(v)));
    let mode = ("mode"@, Json::Text("phylum"@));
    let ok = ("ok"@, Json::Bool(report.ok));
    let files = ("files_checked"@, Json::Number(report.files_checked));
    let error = ("error"@, error_json(report.error));
    let nodules = ("nodules"@, rows);
    let one = seq![mode];
    let two = one.push(ok);
    let three = two.push(files);
    let four = three.push(error);
    let five = four.push(nodules);
    assert(report_json(report)->Object_0 =~= five);
    lemma_members_one(mode);
    lemma_members_push(one, ok);
    lemma_members_push(two, files);
    lemma_members_push(three, error);
    lemma_members_push(four, nodules);
    lemma_member("mode"@, json_text(mode.1));
    lemma_member("ok"@, json_text(ok.1));
    lemma_member("files_checked"@, json_text(files.1));
    lemma_member("error"@, json_text(error.1));
    lemma_member("nodules"@, json_text(nodules.1));
    lemma_quoted("phylum"@);
    lemma_plain("phylum"@);
    a_machine_is_told_the_refusal(report.error);
    lemma_rows(report.nodules);
    let list = joined(
        report.nodules.map_values(|v: NoduleVerdictView| machine_verdict(v)),
        ","@,
    );
    assert(json_text(rows) == "["@ + list + "]"@);
    lemma_report_text(report, list, json_text(ok.1));
}

proof fn lemma_report_text(report: PhylumReportView, list: Seq<char>, ok: Seq<char>)
    requires
        ok == json_text(Json::Bool(report.ok)),
        escaped("phylum"@) == "phylum"@,
    ensures
        "{"@ + (member("mode"@, in_quotes("phylum"@)) + seq![','] + member("ok"@, ok) + seq![',']
            + member("files_checked"@, decimal(report.files_checked)) + seq![','] + member(
            "error"@,
            machine_error(report.error),
        ) + seq![','] + member("nodules"@, "["@ + list + "]"@)) + "}"@ == (if report.ok {
            "{\"mode\":\"phylum\",\"ok\":true,\"files_checked\":"@
        } else {
            "{\"mode\":\"phylum\",\"ok\":false,\"files_checked\":"@
        }) + decimal(report.files_checked) + ",\"error\":"@ + machine_error(report.error)
            + ",\"nodules\":["@ + list + "]}"@,
{
    lemma_report_head(report, ok);
    reveal_strlit("error");
    reveal_strlit("nodules");
    reveal_strlit("[");
    reveal_strlit("]");
    reveal_strlit("}");
    reveal_strlit("]}");
    reveal_strlit(",\"error\":");
    reveal_strlit(",\"nodules\":[");
    let head = "{"@ + member("mode"@, in_quotes("phylum"@)) + seq![','] + member("ok"@, ok) + seq![
        ',',
        '"',
    ] + "files_checked"@ + seq!['"', ':'];
    assert(seq![',', '"'] + "error"@ + seq!['"', ':'] =~= ",\"error\":"@);
    assert(seq![',', '"'] + "nodules"@ + seq!['"', ':'] + "["@ =~= ",\"nodules\":["@);
    assert("]"@ + "}"@ =~= "]}"@);
    assert("{"@ + (member("mode"@, in_quotes("phylum"@)) + seq![','] + member("ok"@, ok) + seq![',']
        + member("files_checked"@, decimal(report.files_checked)) + seq![','] + member(
        "error"@,
        machine_error(report.error),
    ) + seq![','] + member("nodules"@, "["@ + list + "]"@)) + "}"@ =~= head + decimal(
        report.files_checked,
    ) + (seq![',', '"'] + "error"@ + seq!['"', ':']) + machine_error(report.error) + (seq![
        ',',
        '"',
    ] + "nodules"@ + seq!['"', ':'] + "["@) + list + ("]"@ + "}"@));
}

proof fn lemma_report_head(report: PhylumReportView, ok: Seq<char>)
    requires
        ok == json_text(Json::Bool(report.ok)),
        escaped("phylum"@) == "phylum"@,
    ensures
        "{"@ + member("mode"@, in_quotes("phylum"@)) + seq![','] + member("ok"@, ok) + seq![
            ',',
            '"',
        ] + "files_checked"@ + seq!['"', ':'] == (if report.ok {
            "{\"mode\":\"phylum\",\"ok\":true,\"files_checked\":"@
        } else {
            "{\"mode\":\"phylum\",\"ok\":false,\"files_checked\":"@
        }),
{
    reveal_strlit("{");
    reveal_strlit("mode");
    reveal_strlit("phylum");
    reveal_strlit("ok");
    reveal_strlit("true");
    reveal_strlit("false");
    reveal_strlit("files_checked");
    reveal_strlit("{\"mode\":\"phylum\",\"ok\":true,\"files_checked\":");
    reveal_strlit("{\"mode\":\"phylum\",\"ok\":false,\"files_checked\":");
    let head = "{"@ + member("mode"@, in_quotes("phylum"@)) + seq![','] + member("ok"@, ok) + seq![
        ',',
        '"',
    ] + "files_checked"@ + seq!['"', ':'];
    if report.ok {
        assert(head =~= "{\"mode\":\"phylum\",\"ok\":true,\"files_checked\":"@);
    } else {
        assert(head =~= "{\"mode\":\"phylum\",\"ok\":false,\"files_checked\":"@);
    }
}

} // verus!
