//! What a reply and a forwarded message start from.

use crate::error::DEmailError;
use crate::models::{opt_text, Message, MessageModel};
use crate::text::{
    chars_of, concat, join, join_of, lemma_find_from_bounds, split, split_from, split_of,
    starts_with, string_of, texts, CharClass,
};
use vstd::prelude::*;
use vstd::string::StringExecFns;

verus! {

/// What a reply starts from.
#[derive(Debug)]
pub struct ReplyData {
    pub to: String,
    pub cc: Option<String>,
    pub subject: String,
    pub quoted_body: String,
}

/// What a forwarded message starts from.
#[derive(Debug)]
pub struct ForwardData {
    pub subject: String,
    pub body_with_header: String,
}

/// The model of [`ReplyData`].
pub struct ReplyModel {
    pub to: Seq<char>,
    pub cc: Option<Seq<char>>,
    pub subject: Seq<char>,
    pub quoted_body: Seq<char>,
}

/// The model of [`ForwardData`].
pub struct ForwardModel {
    pub subject: Seq<char>,
    pub body_with_header: Seq<char>,
}

impl View for ReplyData {
    type V = ReplyModel;

    open spec fn view(&self) -> ReplyModel {
        ReplyModel {
            to: self.to@,
            cc: opt_text(self.cc),
            subject: self.subject@,
            quoted_body: self.quoted_body@,
        }
    }
}

impl View for ForwardData {
    type V = ForwardModel;

    open spec fn view(&self) -> ForwardModel {
        ForwardModel { subject: self.subject@, body_with_header: self.body_with_header@ }
    }
}

/// What `chrono` writes for the moment that lies `seconds` after the start
/// of 1970 in universal time, in the form `%Y-%m-%d %H:%M:%S`; `None` where
/// it has no date for the moment.
pub uninterp spec fn utc_date_text(seconds: int) -> Option<Seq<char>>;

/// `chrono::DateTime::from_timestamp` with no nanoseconds, and on its
/// result `DateTime::format` with `%Y-%m-%d %H:%M:%S`, written out: the
/// date and time of the moment in universal time, or `None` where the
/// moment is out of the crate's range. The result is a function of the
/// number of seconds.
#[verifier::external_body]
fn format_utc(seconds: i64) -> (r: Option<String>)
    ensures
        opt_text(r) == utc_date_text(seconds as int),
{
    chrono::DateTime::from_timestamp(seconds, 0).map(|dt| dt.format("%Y-%m-%d %H:%M:%S").to_string())
}

/// The date as a message shows it.
pub open spec fn shown_date(date_text: Option<Seq<char>>) -> Seq<char> {
    match date_text {
        Some(t) => t,
        None => "Unknown date"@,
    }
}

/// A line without the carriage return at its end, if it has one.
pub open spec fn strip_return(line: Seq<char>) -> Seq<char> {
    if line.len() > 0 && line.last() == '\r' {
        line.drop_last()
    } else {
        line
    }
}

/// [`strip_return`], as a function.
pub open spec fn strip_returns() -> spec_fn(Seq<char>) -> Seq<char> {
    |p: Seq<char>| strip_return(p)
}

/// What puts a line after `> `.
pub open spec fn quoting() -> spec_fn(Seq<char>) -> Seq<char> {
    |l: Seq<char>| "> "@ + l
}

/// The lines of a text. A line ends with a line feed, or with a carriage
/// return and a line feed; neither belongs to the line. What follows the
/// last line feed is a line too, unless it is empty.
pub open spec fn lines(s: Seq<char>) -> Seq<Seq<char>> {
    let pieces = split(s, CharClass::Is('\n'));
    let ended = pieces.drop_last().map_values(strip_returns());
    if pieces.last().len() == 0 {
        ended
    } else {
        ended.push(pieces.last())
    }
}

/// A text has at least one piece, whatever it is cut at.
pub proof fn lemma_split_nonempty(s: Seq<char>, class: CharClass, from: int)
    requires
        0 <= from <= s.len(),
    ensures
        split_from(s, class, from).len() >= 1,
{
    lemma_find_from_bounds(s, class, from);
}

/// The lines of a text.
pub fn lines_of(s: &Vec<char>) -> (r: Vec<Vec<char>>)
    ensures
        texts(r@) == lines(s@),
{
    let pieces = split_of(s, CharClass::Is('\n'));
    proof {
        lemma_split_nonempty(s@, CharClass::Is('\n'), 0);
    }
    let n: usize = pieces.len();
    let ghost all = texts(pieces@);
    let mut r: Vec<Vec<char>> = Vec::new();
    let mut i: usize = 0;
    while i + 1 < n
        invariant
            n == pieces.len(),
            n >= 1,
            i + 1 <= n,
            all == texts(pieces@),
            texts(r@) == all.drop_last().take(i as int).map_values(strip_returns()),
        decreases n - i,
    {
        let p = &pieces[i];
        let line = if p.len() > 0 && p[p.len() - 1] == '\r' {
            crate::text::slice_of(p, 0, p.len() - 1)
        } else {
            p.clone()
        };
        proof {
            assert(line@ == strip_return(p@));
            assert(all.drop_last().take(i + 1) =~= all.drop_last().take(i as int).push(p@));
            assert(texts(r@.push(line)) =~= texts(r@).push(line@));
            all.drop_last().take(i as int).lemma_push_map_commute(strip_returns(), p@);
        }
        r.push(line);
        i += 1;
    }
    proof {
        assert(all.drop_last().take(n - 1) =~= all.drop_last());
    }
    let last = &pieces[n - 1];
    if last.len() > 0 {
        proof {
            assert(texts(r@.push(*last)) =~= texts(r@).push(last@));
        }
        r.push(last.clone());
    }
    r
}

/// The lines of `body`, each after `> `, with a line feed between each two.
pub open spec fn quoted_lines(body: Seq<char>) -> Seq<char> {
    join(lines(body).map_values(quoting()), "\n"@)
}

/// The quotation that a reply starts with, given the date as text.
pub open spec fn quotation(from: Seq<char>, date_text: Option<Seq<char>>, body: Seq<char>) -> Seq<
    char,
> {
    "\n\nOn "@ + shown_date(date_text) + ", "@ + from + " wrote:\n"@ + quoted_lines(body)
}

/// What a forwarded message starts with, given the date as text.
pub open spec fn forwarded(
    from: Seq<char>,
    to: Seq<char>,
    cc: Seq<char>,
    date_text: Option<Seq<char>>,
    subject: Seq<char>,
    body: Seq<char>,
) -> Seq<char> {
    let head = "\n\n---------- Forwarded message ----------\nFrom: "@ + from + "\nDate: "@
        + shown_date(date_text) + "\nSubject: "@ + subject + "\nTo: "@ + to;
    let copy = if cc.len() > 0 {
        "\nCc: "@ + cc
    } else {
        Seq::empty()
    };
    head + copy + "\n\n"@ + body
}

/// `subject` behind `prefix`, unless it begins with it.
pub open spec fn prefixed(prefix: Seq<char>, subject: Seq<char>) -> Seq<char> {
    if prefix.is_prefix_of(subject) {
        subject
    } else {
        prefix + subject
    }
}

/// The body that is quoted: the plain one, else the HTML one, else nothing.
pub open spec fn quotable_body(m: MessageModel) -> Seq<char> {
    match m.body_plain {
        Some(b) => b,
        None => match m.body_html {
            Some(h) => h,
            None => Seq::empty(),
        },
    }
}

/// Who is in copy of a reply to all: the recipients of the message and
/// those who were in copy, as far as either is given, with a comma and a
/// space between them.
pub open spec fn reply_copy(m: MessageModel) -> Option<Seq<char>> {
    let to_given = m.to_header.len() > 0;
    let cc_given = m.cc_header matches Some(c) && c.len() > 0;
    if to_given && cc_given {
        Some(m.to_header + ", "@ + m.cc_header.unwrap())
    } else if to_given {
        Some(m.to_header)
    } else if cc_given {
        m.cc_header
    } else {
        None
    }
}

/// What a reply to `m` starts from, given the date of `m` as text.
pub open spec fn reply_of(m: MessageModel, reply_all: bool, date_text: Option<Seq<char>>) -> ReplyModel {
    ReplyModel {
        to: m.from_header,
        cc: if reply_all {
            reply_copy(m)
        } else {
            None
        },
        subject: prefixed("Re: "@, m.subject),
        quoted_body: quotation(m.from_header, date_text, quotable_body(m)),
    }
}

/// What forwarding `m` starts from, given the date of `m` as text.
pub open spec fn forward_of(m: MessageModel, date_text: Option<Seq<char>>) -> ForwardModel {
    ForwardModel {
        subject: prefixed("Fwd: "@, m.subject),
        body_with_header: forwarded(
            m.from_header,
            m.to_header,
            match m.cc_header {
                Some(c) => c,
                None => Seq::empty(),
            },
            date_text,
            m.subject,
            quotable_body(m),
        ),
    }
}

fn with_prefix(prefix: &str, subject: &str) -> (r: String)
    ensures
        r@ == prefixed(prefix@, subject@),
{
    if starts_with(&chars_of(subject), &chars_of(prefix)) {
        String::from_str(subject)
    } else {
        let mut r = String::from_str(prefix);
        r.append(subject);
        r
    }
}

fn date_shown(date_text: &Option<String>) -> (r: String)
    ensures
        r@ == shown_date(opt_text(*date_text)),
{
    match date_text {
        Some(t) => t.clone(),
        None => String::from_str("Unknown date"),
    }
}

fn body_to_quote(message: &Message) -> (r: String)
    ensures
        r@ == quotable_body(message@),
{
    match &message.body_plain {
        Some(b) => b.clone(),
        None => match &message.body_html {
            Some(h) => h.clone(),
            None => String::new(),
        },
    }
}

/// The quotation that a reply starts with: who wrote the message and when,
/// then its lines, each after `> `.
pub fn quote_original_message(from: &str, date_text: &Option<String>, body: &str) -> (r: String)
    ensures
        r@ == quotation(from@, opt_text(*date_text), body@),
{
    let body_lines = lines_of(&chars_of(body));
    let mark = chars_of("> ");
    let mut quoted: Vec<Vec<char>> = Vec::new();
    let mut i: usize = 0;
    while i < body_lines.len()
        invariant
            i <= body_lines.len(),
            mark@ == "> "@,
            texts(quoted@) == texts(body_lines@).take(i as int).map_values(quoting()),
        decreases body_lines.len() - i,
    {
        let line = concat(&mark, &body_lines[i]);
        proof {
            assert(texts(body_lines@).take(i + 1) =~= texts(body_lines@).take(i as int).push(
                body_lines@[i as int]@,
            ));
            assert(texts(quoted@.push(line)) =~= texts(quoted@).push(line@));
            texts(body_lines@).take(i as int).lemma_push_map_commute(quoting(), body_lines@[i as int]@);
        }
        quoted.push(line);
        i += 1;
    }
    proof {
        assert(texts(body_lines@).take(body_lines.len() as int) =~= texts(body_lines@));
    }
    let block = join_of(&quoted, &chars_of("\n"));
    let mut r = String::from_str("\n\nOn ");
    r.append(date_shown(date_text).as_str());
    r.append(", ");
    r.append(from);
    r.append(" wrote:\n");
    r.append(string_of(&block).as_str());
    r
}

/// What a forwarded message starts with: a header that names the sender,
/// the date, the subject, the recipients and, where there are any, those in
/// copy; then the body.
pub fn format_forward_message(
    from: &str,
    to: &str,
    cc: &str,
    date_text: &Option<String>,
    subject: &str,
    body: &str,
) -> (r: String)
    ensures
        r@ == forwarded(from@, to@, cc@, opt_text(*date_text), subject@, body@),
{
    let mut r = String::from_str("\n\n---------- Forwarded message ----------\nFrom: ");
    r.append(from);
    r.append("\nDate: ");
    r.append(date_shown(date_text).as_str());
    r.append("\nSubject: ");
    r.append(subject);
    r.append("\nTo: ");
    r.append(to);
    if !cc.is_empty() {
        r.append("\nCc: ");
        r.append(cc);
    } else {
        proof {
            assert(r@ + Seq::<char>::empty() =~= r@);
        }
    }
    r.append("\n\n");
    r.append(body);
    r
}

/// What a reply to `message` starts from, with the date of the message
/// given as text.
pub fn compose_reply(message: &Message, reply_all: bool, date_text: &Option<String>) -> (r: ReplyData)
    ensures
        r@ == reply_of(message@, reply_all, opt_text(*date_text)),
{
    let cc: Option<String> = if reply_all {
        let to_given = !message.to_header.as_str().is_empty();
        match &message.cc_header {
            Some(c) => {
                if to_given && !c.as_str().is_empty() {
                    let mut both = message.to_header.clone();
                    both.append(", ");
                    both.append(c.as_str());
                    Some(both)
                } else if to_given {
                    Some(message.to_header.clone())
                } else if !c.as_str().is_empty() {
                    Some(c.clone())
                } else {
                    None
                }
            },
            None => {
                if to_given {
                    Some(message.to_header.clone())
                } else {
                    None
                }
            },
        }
    } else {
        None
    };
    let body = body_to_quote(message);
    ReplyData {
        to: message.from_header.clone(),
        cc,
        subject: with_prefix("Re: ", message.subject.as_str()),
        quoted_body: quote_original_message(
            message.from_header.as_str(),
            date_text,
            body.as_str(),
        ),
    }
}

/// What forwarding `message` starts from, with the date of the message
/// given as text.
pub fn compose_forward(message: &Message, date_text: &Option<String>) -> (r: ForwardData)
    ensures
        r@ == forward_of(message@, opt_text(*date_text)),
{
    let body = body_to_quote(message);
    let empty = String::new();
    let cc: &String = match &message.cc_header {
        Some(c) => c,
        None => &empty,
    };
    ForwardData {
        subject: with_prefix("Fwd: ", message.subject.as_str()),
        body_with_header: format_forward_message(
            message.from_header.as_str(),
            message.to_header.as_str(),
            cc.as_str(),
            date_text,
            message.subject.as_str(),
            body.as_str(),
        ),
    }
}

/// What a reply to `message` starts from: it goes to the sender, in copy to
/// the other recipients where all are answered, under the subject behind
/// `Re: `, and quotes the message.
pub fn prepare_reply(message: &Message, reply_all: bool) -> (r: Result<ReplyData, DEmailError>)
    ensures
        r matches Ok(d) && d@ == reply_of(message@, reply_all, utc_date_text(message.date as int)),
{
    let date_text = format_utc(message.date);
    Ok(compose_reply(message, reply_all, &date_text))
}

/// What forwarding `message` starts from: the subject behind `Fwd: `, and
/// the message under a header that says where it comes from.
pub fn prepare_forward(message: &Message) -> (r: Result<ForwardData, DEmailError>)
    ensures
        r matches Ok(d) && d@ == forward_of(message@, utc_date_text(message.date as int)),
{
    let date_text = format_utc(message.date);
    Ok(compose_forward(message, &date_text))
}

} // verus!
