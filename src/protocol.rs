//! The wire protocol: one request per line of ASCII text, decoded into a
//! request; replies rendered as `OK ...` or `FAIL ...` lines.

use crate::ports::{UsedPort, UsedPortView};
use vstd::prelude::*;

verus! {

/// The character of the decimal digit `d`.
pub open spec fn digit_char(d: nat) -> char {
    if d == 0 {
        '0'
    } else if d == 1 {
        '1'
    } else if d == 2 {
        '2'
    } else if d == 3 {
        '3'
    } else if d == 4 {
        '4'
    } else if d == 5 {
        '5'
    } else if d == 6 {
        '6'
    } else if d == 7 {
        '7'
    } else if d == 8 {
        '8'
    } else {
        '9'
    }
}

/// `n` written in decimal, without leading zeros.
pub open spec fn decimal(n: nat) -> Seq<char>
    decreases n,
{
    if n < 10 {
        seq![digit_char(n)]
    } else {
        decimal(n / 10).push(digit_char(n % 10))
    }
}

fn digit_text(d: u64) -> (r: &'static str)
    requires
        d < 10,
    ensures
        r@ == seq![digit_char(d as nat)],
{
    proof {
        reveal_strlit("0");
        reveal_strlit("1");
        reveal_strlit("2");
        reveal_strlit("3");
        reveal_strlit("4");
        reveal_strlit("5");
        reveal_strlit("6");
        reveal_strlit("7");
        reveal_strlit("8");
        reveal_strlit("9");
    }
    let r = if d == 0 {
        "0"
    } else if d == 1 {
        "1"
    } else if d == 2 {
        "2"
    } else if d == 3 {
        "3"
    } else if d == 4 {
        "4"
    } else if d == 5 {
        "5"
    } else if d == 6 {
        "6"
    } else if d == 7 {
        "7"
    } else if d == 8 {
        "8"
    } else {
        "9"
    };
    assert(r@ =~= seq![digit_char(d as nat)]);
    r
}

/// `n` written in decimal.
pub fn decimal_text(n: u64) -> (r: String)
    ensures
        r@ == decimal(n as nat),
    decreases n,
{
    if n < 10 {
        String::from_str(digit_text(n))
    } else {
        let mut r = decimal_text(n / 10);
        r.append(digit_text(n % 10));
        r
    }
}


/// The ASCII whitespace characters: space, tab, line feed, form feed and
/// carriage return.
pub open spec fn is_space(c: char) -> bool {
    c == ' ' || c == '\t' || c == '\n' || c == '\x0C' || c == '\r'
}

/// The words of `s`: its maximal runs of characters that are not ASCII
/// whitespace, in order.
pub open spec fn words(s: Seq<char>) -> Seq<Seq<char>>
    decreases s.len(),
{
    if s.len() == 0 {
        seq![]
    } else {
        let w = words(s.drop_last());
        let c = s.last();
        if is_space(c) {
            w
        } else if s.len() >= 2 && !is_space(s[s.len() - 2]) {
            w.update(w.len() - 1, w.last().push(c))
        } else {
            w.push(seq![c])
        }
    }
}

fn space(c: char) -> (r: bool)
    ensures
        r == is_space(c),
{
    c == ' ' || c == '\t' || c == '\n' || c == '\x0C' || c == '\r'
}

/// Split `line` into its words, as `words` says.
pub fn split_words(line: &str) -> (r: Vec<String>)
    ensures
        r@.map_values(|t: String| t@) == words(line@),
{
    let n = line.unicode_len();
    let mut toks: Vec<String> = Vec::new();
    let mut start: usize = 0;
    let mut in_word = false;
    let mut i: usize = 0;
    while i < n
        invariant
            n == line@.len(),
            start <= i <= n,
            in_word ==> start < i && (forall|k: int| start <= k < i ==> !is_space(#[trigger] line@[k])),
            !in_word ==> i == 0 || is_space(line@[i - 1]),
            toks@.map_values(|t: String| t@) + (if in_word {
                seq![line@.subrange(start as int, i as int)]
            } else {
                seq![]
            }) == words(line@.take(i as int)),
        decreases n - i,
    {
        let c = line.get_char(i);
        let ghost before = toks@.map_values(|t: String| t@);
        let ghost w = words(line@.take(i as int));
        assert(line@.take(i + 1).drop_last() =~= line@.take(i as int));
        assert(line@.take(i + 1).last() == c);
        if space(c) {
            if in_word {
                toks.push(String::from_str(line.substring_char(start, i)));
                assert(toks@.map_values(|t: String| t@) =~= before + seq![line@.subrange(start as int, i as int)]);
            }
            in_word = false;
            assert(toks@.map_values(|t: String| t@) + seq![] =~= words(line@.take(i + 1)));
        } else {
            if in_word {
                assert(line@.take(i + 1)[i - 1] == line@[i - 1]);
                assert(w.last().push(c) =~= line@.subrange(start as int, i + 1));
                assert(toks@.map_values(|t: String| t@) + seq![line@.subrange(start as int, i + 1)] =~= words(line@.take(i + 1)));
            } else {
                if i > 0 {
                    assert(line@.take(i + 1)[i - 1] == line@[i - 1]);
                }
                assert(seq![c] =~= line@.subrange(i as int, i + 1));
                assert(toks@.map_values(|t: String| t@) + seq![line@.subrange(i as int, i + 1)] =~= words(line@.take(i + 1)));
                start = i;
                in_word = true;
            }
        }
        i = i + 1;
    }
    let ghost before = toks@.map_values(|t: String| t@);
    if in_word {
        toks.push(String::from_str(line.substring_char(start, n)));
        assert(toks@.map_values(|t: String| t@) =~= before + seq![line@.subrange(start as int, n as int)]);
    }
    assert(line@.take(n as int) =~= line@);
    assert(toks@.map_values(|t: String| t@) =~= words(line@));
    toks
}


/// A request read from a client.
pub enum ClientRequest {
    Gimme { service_name: String, user_name: String },
    List,
    Terminate,
    Invalid,
}

/// A request, mathematically.
pub ghost enum RequestView {
    Gimme { service: Seq<char>, user: Seq<char> },
    List,
    Terminate,
    Invalid,
}

impl View for ClientRequest {
    type V = RequestView;

    open spec fn view(&self) -> RequestView {
        match self {
            ClientRequest::Gimme { service_name, user_name } => RequestView::Gimme {
                service: service_name@,
                user: user_name@,
            },
            ClientRequest::List => RequestView::List,
            ClientRequest::Terminate => RequestView::Terminate,
            ClientRequest::Invalid => RequestView::Invalid,
        }
    }
}

/// The request that the line `line` (its newline removed) asks for:
/// `GIMME <service> <user>`, `LIST` or `TERMINATE`, with exactly that
/// many words; anything else is invalid.
pub open spec fn decode(line: Seq<char>) -> RequestView {
    let ws = words(line);
    if ws.len() == 3 && ws[0] == "GIMME"@ {
        RequestView::Gimme { service: ws[1], user: ws[2] }
    } else if ws.len() == 1 && ws[0] == "LIST"@ {
        RequestView::List
    } else if ws.len() == 1 && ws[0] == "TERMINATE"@ {
        RequestView::Terminate
    } else {
        RequestView::Invalid
    }
}

/// `LIST` and `TERMINATE` take no arguments: a line that starts with
/// either and has more words is invalid.
pub proof fn lemma_bare_verbs_take_no_arguments(line: Seq<char>)
    requires
        words(line).len() >= 2,
        words(line)[0] == "LIST"@ || words(line)[0] == "TERMINATE"@,
    ensures
        decode(line) == RequestView::Invalid,
{
    reveal_strlit("GIMME");
    reveal_strlit("LIST");
    reveal_strlit("TERMINATE");
    assert("GIMME"@.len() != "LIST"@.len() && "GIMME"@.len() != "TERMINATE"@.len());
}

/// Decode one request line, its newline removed.
pub fn decode_request(request_line: &str) -> (r: ClientRequest)
    ensures
        r@ == decode(request_line@),
{
    let mut ws = split_words(request_line);
    let ghost spec_ws = words(request_line@);
    assert(ws@.len() == spec_ws.len());
    if ws.len() == 0 {
        return ClientRequest::Invalid;
    }
    assert(ws@[0]@ == spec_ws[0]);
    proof {
        reveal_strlit("GIMME");
        reveal_strlit("LIST");
        reveal_strlit("TERMINATE");
    }
    let verb = &ws[0];
    if *verb == String::from_str("GIMME") {
        if ws.len() == 3 {
            assert(ws@[1]@ == spec_ws[1]);
            assert(ws@[2]@ == spec_ws[2]);
            let user_name = ws.pop().unwrap();
            let service_name = ws.pop().unwrap();
            assert(service_name@ == spec_ws[1]);
            assert(user_name@ == spec_ws[2]);
            ClientRequest::Gimme { service_name, user_name }
        } else {
            ClientRequest::Invalid
        }
    } else if ws.len() != 1 {
        ClientRequest::Invalid
    } else if *verb == String::from_str("LIST") {
        ClientRequest::List
    } else if *verb == String::from_str("TERMINATE") {
        ClientRequest::Terminate
    } else {
        ClientRequest::Invalid
    }
}

/// A failure reply: `FAIL <reason>` and a newline.
pub open spec fn failure_text(reason: Seq<char>) -> Seq<char> {
    "FAIL "@ + reason + "\n"@
}

/// The reply to an allocation: `OK <port>` or `FAIL <reason>`.
pub open spec fn allocation_text(result: Result<u16, Seq<char>>) -> Seq<char> {
    match result {
        Ok(port) => "OK "@ + decimal(port as nat) + "\n"@,
        Err(reason) => failure_text(reason),
    }
}

/// One row of a listing: `<port> <service> <user>`.
pub open spec fn row_text(u: UsedPortView) -> Seq<char> {
    decimal(u.port as nat) + " "@ + u.service + " "@ + u.user
}

/// The rows of a listing, each followed by a newline.
pub open spec fn rows_text(rows: Seq<UsedPortView>) -> Seq<char>
    decreases rows.len(),
{
    if rows.len() == 0 {
        seq![]
    } else {
        rows_text(rows.drop_last()) + row_text(rows.last()) + "\n"@
    }
}

/// The reply to a listing: `OK <n>` and then the `n` rows.
pub open spec fn listing_text(rows: Seq<UsedPortView>) -> Seq<char> {
    "OK "@ + decimal(rows.len()) + "\n"@ + rows_text(rows)
}

/// The reply `FAIL <reason>`.
pub fn failure_reply(reason: &str) -> (r: String)
    ensures
        r@ == failure_text(reason@),
{
    let mut r = String::from_str("FAIL ");
    r.append(reason);
    r.append("\n");
    r
}

/// The reply to a request that could not be decoded.
pub fn invalid_reply() -> (r: String)
    ensures
        r@ == failure_text("- invalid request"@),
{
    failure_reply("- invalid request")
}

/// The reply to an allocation asked for by a peer that is not local.
pub fn not_local_reply() -> (r: String)
    ensures
        r@ == failure_text("can only allocate to local senders"@),
{
    failure_reply("can only allocate to local senders")
}

/// The reply to an allocation whose outcome is `result`.
pub fn allocation_reply(result: &Result<u16, String>) -> (r: String)
    ensures
        r@ == allocation_text(
            match result {
                Ok(p) => Ok(*p),
                Err(e) => Err(e@),
            },
        ),
{
    match result {
        Ok(port) => {
            let mut r = String::from_str("OK ");
            let digits = decimal_text(*port as u64);
            r.append(digits.as_str());
            r.append("\n");
            r
        },
        Err(reason) => failure_reply(reason.as_str()),
    }
}

/// The reply to a listing of `rows`.
pub fn listing_reply(rows: &Vec<UsedPort>) -> (r: String)
    ensures
        r@ == listing_text(rows@.map_values(|u: UsedPort| u@)),
{
    let ghost views = rows@.map_values(|u: UsedPort| u@);
    let mut r = String::from_str("OK ");
    let count = decimal_text(rows.len() as u64);
    r.append(count.as_str());
    r.append("\n");
    let mut i: usize = 0;
    while i < rows.len()
        invariant
            i <= rows@.len(),
            views == rows@.map_values(|u: UsedPort| u@),
            r@ == "OK "@ + decimal(rows@.len() as nat) + "\n"@ + rows_text(views.take(i as int)),
        decreases rows@.len() - i,
    {
        let row = rows[i].to_text();
        r.append(row.as_str());
        r.append("\n");
        assert(views.take(i + 1).drop_last() =~= views.take(i as int));
        i = i + 1;
    }
    assert(views.take(rows@.len() as int) =~= views);
    r
}

} // verus!
