//! The line grammar: groups tokens into lines and turns each line into a
//! filter rule or a setting rule.
use vstd::prelude::*;
use vstd::string::*;

use crate::lexer::{Lexer, NUL, SPACE, Token, TokenKind, lexeme_of, lemma_scan_bounds, scan, skip_spaces};

verus! {

/// The category of request that a filter rule applies to.
#[derive(Debug, PartialEq, Eq, Structural, Clone, Copy)]
pub enum ReqKind {
    All,
    Image,
    InlineScript,
    FstpScript,
    Thrdp,
    ThrdpScript,
    ThrdpFrame,
}

/// The decision that a filter rule applies.
#[derive(Debug, PartialEq, Eq, Structural, Clone, Copy)]
pub enum ActionKind {
    Block,
    Noop,
    Allow,
}

/// The keyword that names a request kind.
pub open spec fn request_keyword(k: ReqKind) -> Seq<char> {
    match k {
        ReqKind::All => seq!['*'],
        ReqKind::Image => seq!['i', 'm', 'a', 'g', 'e'],
        ReqKind::InlineScript => seq![
            'i', 'n', 'l', 'i', 'n', 'e', '-', 's', 'c', 'r', 'i', 'p', 't'
        ],
        ReqKind::FstpScript => seq!['1', 'p', '-', 's', 'c', 'r', 'i', 'p', 't'],
        ReqKind::Thrdp => seq!['3', 'p'],
        ReqKind::ThrdpScript => seq!['3', 'p', '-', 's', 'c', 'r', 'i', 'p', 't'],
        ReqKind::ThrdpFrame => seq!['3', 'p', '-', 'f', 'r', 'a', 'm', 'e'],
    }
}

/// The keyword that names an action kind.
pub open spec fn action_keyword(k: ActionKind) -> Seq<char> {
    match k {
        ActionKind::Block => seq!['b', 'l', 'o', 'c', 'k'],
        ActionKind::Noop => seq!['n', 'o', 'o', 'p'],
        ActionKind::Allow => seq!['a', 'l', 'l', 'o', 'w'],
    }
}

/// The request keyword table: the kind whose keyword is exactly `t`.
pub open spec fn request_kind_of(t: Seq<char>) -> Option<ReqKind> {
    if t == request_keyword(ReqKind::All) {
        Some(ReqKind::All)
    } else if t == request_keyword(ReqKind::Image) {
        Some(ReqKind::Image)
    } else if t == request_keyword(ReqKind::InlineScript) {
        Some(ReqKind::InlineScript)
    } else if t == request_keyword(ReqKind::FstpScript) {
        Some(ReqKind::FstpScript)
    } else if t == request_keyword(ReqKind::Thrdp) {
        Some(ReqKind::Thrdp)
    } else if t == request_keyword(ReqKind::ThrdpScript) {
        Some(ReqKind::ThrdpScript)
    } else if t == request_keyword(ReqKind::ThrdpFrame) {
        Some(ReqKind::ThrdpFrame)
    } else {
        None
    }
}

/// The action keyword table: the kind whose keyword is exactly `t`.
pub open spec fn action_kind_of(t: Seq<char>) -> Option<ActionKind> {
    if t == action_keyword(ActionKind::Block) {
        Some(ActionKind::Block)
    } else if t == action_keyword(ActionKind::Noop) {
        Some(ActionKind::Noop)
    } else if t == action_keyword(ActionKind::Allow) {
        Some(ActionKind::Allow)
    } else {
        None
    }
}

/// Rendering a request kind as its keyword and looking that keyword up
/// gives the kind back.
pub proof fn lemma_request_keyword_round_trip(k: ReqKind)
    ensures
        request_kind_of(request_keyword(k)) == Some(k),
{
    assert(request_keyword(ReqKind::All).len() == 1);
    assert(request_keyword(ReqKind::Image).len() == 5);
    assert(request_keyword(ReqKind::InlineScript).len() == 13);
    assert(request_keyword(ReqKind::FstpScript).len() == 9);
    assert(request_keyword(ReqKind::Thrdp).len() == 2);
    assert(request_keyword(ReqKind::ThrdpScript).len() == 9);
    assert(request_keyword(ReqKind::ThrdpFrame).len() == 8);
    assert(request_keyword(ReqKind::FstpScript)[0] != request_keyword(ReqKind::ThrdpScript)[0]);
}

/// Rendering an action kind as its keyword and looking that keyword up
/// gives the kind back.
pub proof fn lemma_action_keyword_round_trip(k: ActionKind)
    ensures
        action_kind_of(action_keyword(k)) == Some(k),
{
}

impl ReqKind {
    /// The keyword of this kind.
    pub fn to_string(&self) -> (r: String)
        ensures
            r@ == request_keyword(*self),
    {
        let r = match self {
            ReqKind::All => String::from_str("*"),
            ReqKind::Image => String::from_str("image"),
            ReqKind::InlineScript => String::from_str("inline-script"),
            ReqKind::FstpScript => String::from_str("1p-script"),
            ReqKind::Thrdp => String::from_str("3p"),
            ReqKind::ThrdpScript => String::from_str("3p-script"),
            ReqKind::ThrdpFrame => String::from_str("3p-frame"),
        };
        proof {
            reveal_strlit("*");
            reveal_strlit("image");
            reveal_strlit("inline-script");
            reveal_strlit("1p-script");
            reveal_strlit("3p");
            reveal_strlit("3p-script");
            reveal_strlit("3p-frame");
            assert(r@ =~= request_keyword(*self));
        }
        r
    }
}

impl ActionKind {
    /// The keyword of this kind.
    pub fn to_string(&self) -> (r: String)
        ensures
            r@ == action_keyword(*self),
    {
        let r = match self {
            ActionKind::Block => String::from_str("block"),
            ActionKind::Noop => String::from_str("noop"),
            ActionKind::Allow => String::from_str("allow"),
        };
        proof {
            reveal_strlit("block");
            reveal_strlit("noop");
            reveal_strlit("allow");
            assert(r@ =~= action_keyword(*self));
        }
        r
    }
}

/// Whether `text` is exactly the keyword `kw`.
pub(crate) fn is_keyword(text: &String, kw: &str) -> (b: bool)
    ensures
        b == (text@ == kw@),
{
    *text == String::from_str(kw)
}

impl ReqKind {
    /// Looks `text` up in the request keyword table.
    pub fn from_keyword(text: &String) -> (r: Option<ReqKind>)
        ensures
            r == request_kind_of(text@),
    {
        proof {
            reveal_strlit("*");
            reveal_strlit("image");
            reveal_strlit("inline-script");
            reveal_strlit("1p-script");
            reveal_strlit("3p");
            reveal_strlit("3p-script");
            reveal_strlit("3p-frame");
            assert("*"@ =~= request_keyword(ReqKind::All));
            assert("image"@ =~= request_keyword(ReqKind::Image));
            assert("inline-script"@ =~= request_keyword(ReqKind::InlineScript));
            assert("1p-script"@ =~= request_keyword(ReqKind::FstpScript));
            assert("3p"@ =~= request_keyword(ReqKind::Thrdp));
            assert("3p-script"@ =~= request_keyword(ReqKind::ThrdpScript));
            assert("3p-frame"@ =~= request_keyword(ReqKind::ThrdpFrame));
        }
        if is_keyword(text, "*") {
            Some(ReqKind::All)
        } else if is_keyword(text, "image") {
            Some(ReqKind::Image)
        } else if is_keyword(text, "inline-script") {
            Some(ReqKind::InlineScript)
        } else if is_keyword(text, "1p-script") {
            Some(ReqKind::FstpScript)
        } else if is_keyword(text, "3p") {
            Some(ReqKind::Thrdp)
        } else if is_keyword(text, "3p-script") {
            Some(ReqKind::ThrdpScript)
        } else if is_keyword(text, "3p-frame") {
            Some(ReqKind::ThrdpFrame)
        } else {
            None
        }
    }
}

impl ActionKind {
    /// Looks `text` up in the action keyword table.
    pub fn from_keyword(text: &String) -> (r: Option<ActionKind>)
        ensures
            r == action_kind_of(text@),
    {
        proof {
            reveal_strlit("block");
            reveal_strlit("noop");
            reveal_strlit("allow");
            assert("block"@ =~= action_keyword(ActionKind::Block));
            assert("noop"@ =~= action_keyword(ActionKind::Noop));
            assert("allow"@ =~= action_keyword(ActionKind::Allow));
        }
        if is_keyword(text, "block") {
            Some(ActionKind::Block)
        } else if is_keyword(text, "noop") {
            Some(ActionKind::Noop)
        } else if is_keyword(text, "allow") {
            Some(ActionKind::Allow)
        } else {
            None
        }
    }
}

/// `http::Uri`, carried through filter rules without being looked into.
#[verifier::external_type_specification]
#[verifier::external_body]
pub struct ExUri(http::Uri);

/// `http::uri::InvalidUri`, the error of a URI that does not parse.
#[verifier::external_type_specification]
#[verifier::external_body]
pub struct ExInvalidUri(http::uri::InvalidUri);

/// Whether `http::Uri` accepts the text.
pub uninterp spec fn uri_accepts(s: Seq<char>) -> bool;

/// Relies on `http::Uri`'s `FromStr` impl: whether the text parses depends
/// on the text alone.
#[verifier::external_body]
fn parse_uri(text: &str) -> (r: Result<http::Uri, http::uri::InvalidUri>)
    ensures
        r is Ok == uri_accepts(text@),
{
    text.parse::<http::Uri>()
}

/// A decision for traffic from one URI to another under a request category.
#[derive(Debug)]
pub struct FilterRule {
    pub source: http::Uri,
    pub destination: http::Uri,
    pub req_type: ReqKind,
    pub action_type: ActionKind,
}

/// A free-form name/location/value triplet.
#[derive(Debug, Clone)]
pub struct SettingRule {
    pub name: String,
    pub location: String,
    pub val: String,
}

/// One parsed line.
#[derive(Debug)]
pub enum RuleItem {
    Filter(FilterRule),
    Setting(SettingRule),
}

/// The field of a filter line that failed to resolve.
#[derive(Debug, PartialEq, Eq, Structural, Clone, Copy)]
pub enum Field {
    Source,
    Destination,
    Request,
    Action,
}

/// Why a parse did not complete.
#[derive(Debug, PartialEq, Eq, Clone)]
pub enum ParseError {
    /// A URI field that `http::Uri` rejects, with its text.
    InvalidUri { field: Field, text: String },
    /// A keyword field that is in neither keyword table, with its text.
    UnknownKeyword { field: Field, text: String },
    /// A line (counted from one) with neither three nor four fields.
    MalformedLine { line: usize, field_count: usize },
}

/// A parse error with its text as characters.
pub enum ErrorModel {
    InvalidUri { field: Field, text: Seq<char> },
    UnknownKeyword { field: Field, text: Seq<char> },
    MalformedLine { line: nat, field_count: nat },
}

impl View for ParseError {
    type V = ErrorModel;

    open spec fn view(&self) -> ErrorModel {
        match self {
            ParseError::InvalidUri { field, text } => ErrorModel::InvalidUri {
                field: *field,
                text: text@,
            },
            ParseError::UnknownKeyword { field, text } => ErrorModel::UnknownKeyword {
                field: *field,
                text: text@,
            },
            ParseError::MalformedLine { line, field_count } => ErrorModel::MalformedLine {
                line: *line as nat,
                field_count: *field_count as nat,
            },
        }
    }
}

/// The fields of the line whose first token is scanned from `q`.
pub open spec fn line_fields(s: Seq<u8>, q: int) -> Seq<Seq<char>>
    decreases s.len() - q,
    via line_fields_decreases
{
    if 0 <= q <= s.len() && scan(s, q).kind == TokenKind::Text {
        seq![lexeme_of(s, scan(s, q))] + line_fields(s, scan(s, q).end)
    } else {
        Seq::empty()
    }
}

#[via_fn]
proof fn line_fields_decreases(s: Seq<u8>, q: int) {
    if 0 <= q <= s.len() {
        lemma_scan_bounds(s, q);
    }
}

/// Where scanning resumes after the terminator of the line whose first token
/// is scanned from `q`.
pub open spec fn line_next(s: Seq<u8>, q: int) -> int
    decreases s.len() - q,
    via line_next_decreases
{
    if 0 <= q <= s.len() && scan(s, q).kind == TokenKind::Text {
        line_next(s, scan(s, q).end)
    } else {
        scan(s, q).end
    }
}

#[via_fn]
proof fn line_next_decreases(s: Seq<u8>, q: int) {
    if 0 <= q <= s.len() {
        lemma_scan_bounds(s, q);
    }
}

/// A line ends inside the buffer, and a line that is not the end of input
/// moves the scan forward.
pub proof fn lemma_line_next_bounds(s: Seq<u8>, q: int)
    requires
        0 <= q <= s.len(),
    ensures
        q <= line_next(s, q) <= s.len(),
        scan(s, q).kind != TokenKind::End ==> q < line_next(s, q),
    decreases s.len() - q,
{
    lemma_scan_bounds(s, q);
    if scan(s, q).kind == TokenKind::Text {
        lemma_line_next_bounds(s, scan(s, q).end);
    }
}

/// The lines, each as its fields, from scan position `q` to the end of input.
pub open spec fn lines_from(s: Seq<u8>, q: int) -> Seq<Seq<Seq<char>>>
    decreases s.len() - q,
    via lines_from_decreases
{
    if 0 <= q <= s.len() && scan(s, q).kind != TokenKind::End {
        seq![line_fields(s, q)] + lines_from(s, line_next(s, q))
    } else {
        Seq::empty()
    }
}

#[via_fn]
proof fn lines_from_decreases(s: Seq<u8>, q: int) {
    if 0 <= q <= s.len() {
        lemma_line_next_bounds(s, q);
    }
}

/// Each line moves the scan forward by at least one byte.
pub proof fn lemma_lines_from_len(s: Seq<u8>, q: int)
    requires
        0 <= q <= s.len(),
    ensures
        lines_from(s, q).len() <= s.len() - q,
    decreases s.len() - q,
{
    lemma_line_next_bounds(s, q);
    if scan(s, q).kind != TokenKind::End {
        lemma_lines_from_len(s, line_next(s, q));
    }
}

/// The lines of a whole buffer.
pub open spec fn lines_of(s: Seq<u8>) -> Seq<Seq<Seq<char>>> {
    lines_from(s, 0)
}

/// What is wrong with the line `f`, numbered `line`, if anything.
pub open spec fn line_error(f: Seq<Seq<char>>, line: nat) -> Option<ErrorModel> {
    if f.len() == 4 {
        if !uri_accepts(f[0]) {
            Some(ErrorModel::InvalidUri { field: Field::Source, text: f[0] })
        } else if !uri_accepts(f[1]) {
            Some(ErrorModel::InvalidUri { field: Field::Destination, text: f[1] })
        } else if request_kind_of(f[2]) is None {
            Some(ErrorModel::UnknownKeyword { field: Field::Request, text: f[2] })
        } else if action_kind_of(f[3]) is None {
            Some(ErrorModel::UnknownKeyword { field: Field::Action, text: f[3] })
        } else {
            None
        }
    } else if f.len() == 3 {
        None
    } else {
        Some(ErrorModel::MalformedLine { line, field_count: f.len() })
    }
}

/// The error of the first faulty line from index `k` on; lines count from one.
pub open spec fn first_error(ls: Seq<Seq<Seq<char>>>, k: int) -> Option<ErrorModel>
    decreases ls.len() - k,
{
    if 0 <= k < ls.len() {
        if line_error(ls[k], (k + 1) as nat) is Some {
            line_error(ls[k], (k + 1) as nat)
        } else {
            first_error(ls, k + 1)
        }
    } else {
        None
    }
}

/// `item` is what the well-formed line `f` parses to.
pub open spec fn rule_matches(item: RuleItem, f: Seq<Seq<char>>) -> bool {
    match item {
        RuleItem::Filter(r) => {
            &&& f.len() == 4
            &&& uri_accepts(f[0])
            &&& uri_accepts(f[1])
            &&& request_kind_of(f[2]) == Some(r.req_type)
            &&& action_kind_of(f[3]) == Some(r.action_type)
        },
        RuleItem::Setting(r) => {
            &&& f.len() == 3
            &&& r.name@ == f[0]
            &&& r.location@ == f[1]
            &&& r.val@ == f[2]
        },
    }
}

/// Input made of spaces and a terminating NUL has no lines, so it parses
/// to no rule items at all.
pub proof fn lemma_blank_input_has_no_lines(s: Seq<u8>)
    requires
        s.len() >= 1,
        s[s.len() - 1] == NUL,
        forall|i: int| 0 <= i < s.len() - 1 ==> #[trigger] s[i] == SPACE,
    ensures
        lines_of(s).len() == 0,
        first_error(lines_of(s), 0) is None,
{
    lemma_spaces_then_nul(s, 0);
}

proof fn lemma_spaces_then_nul(s: Seq<u8>, i: int)
    requires
        s.len() >= 1,
        s[s.len() - 1] == NUL,
        forall|j: int| 0 <= j < s.len() - 1 ==> #[trigger] s[j] == SPACE,
        0 <= i <= s.len() - 1,
    ensures
        skip_spaces(s, i) == s.len() - 1,
    decreases s.len() - i,
{
    if i < s.len() - 1 {
        lemma_spaces_then_nul(s, i + 1);
    }
}

/// A line with neither three nor four fields (two or five, say) makes the
/// whole parse fail, whatever well-formed lines come before it.
pub proof fn lemma_malformed_line_fails_parse(ls: Seq<Seq<Seq<char>>>, k: int)
    requires
        0 <= k < ls.len(),
        ls[k].len() != 3 && ls[k].len() != 4,
    ensures
        first_error(ls, 0) is Some,
{
    lemma_error_seen_at(ls, k, 0);
}

proof fn lemma_error_seen_at(ls: Seq<Seq<Seq<char>>>, k: int, j: int)
    requires
        0 <= j <= k < ls.len(),
        line_error(ls[k], (k + 1) as nat) is Some,
    ensures
        first_error(ls, j) is Some,
    decreases k - j,
{
    if j < k {
        lemma_error_seen_at(ls, k, j + 1);
    }
}

/// Reads rule items from a lexer, with one token of lookahead.
pub struct Parser<'lex> {
    lexer: &'lex mut Lexer,
    tok: Token,
    start: Ghost<int>,
}

impl<'lex> Parser<'lex> {
    /// The buffer being parsed.
    pub closed spec fn source(&self) -> Seq<u8> {
        self.lexer.source()
    }

    /// Where the scan of the lookahead token began.
    pub closed spec fn cursor(&self) -> int {
        self.start@
    }

    /// The lookahead token is the one scanned from the cursor, and the lexer
    /// stands right after it.
    pub closed spec fn wf(&self) -> bool {
        let s = self.lexer.source();
        let t = scan(s, self.start@);
        &&& self.lexer.wf()
        &&& 0 <= self.start@ <= s.len()
        &&& s.len() <= usize::MAX
        &&& self.tok.kind == t.kind
        &&& self.tok.lexeme@ == lexeme_of(s, t)
        &&& self.lexer.position() == t.end
    }

    pub fn new(lexer: &'lex mut Lexer) -> (p: Parser<'lex>)
        requires
            old(lexer).wf(),
        ensures
            p.wf(),
            p.source() == old(lexer).source(),
            p.cursor() == old(lexer).position(),
    {
        let ghost q = lexer.position();
        proof {
            lexer.lemma_position_in_bounds();
        }
        let token = lexer.next_token();
        Parser { lexer, tok: token, start: Ghost(q) }
    }

    /// Processes all the text in the lexer: every line in order, or the
    /// error of the first line that is not a well-formed rule.
    pub fn parse(&mut self) -> (r: Result<Vec<RuleItem>, ParseError>)
        requires
            old(self).wf(),
        ensures
            ({
                let ls = lines_from(old(self).source(), old(self).cursor());
                match r {
                    Ok(items) => {
                        &&& first_error(ls, 0) is None
                        &&& items.len() == ls.len()
                        &&& forall|k: int| 0 <= k < ls.len() ==> rule_matches(#[trigger] items@[k], ls[k])
                    },
                    Err(e) => first_error(ls, 0) == Some(e@),
                }
            }),
    {
        let ghost s = self.source();
        let ghost ls = lines_from(s, self.cursor());
        proof {
            lemma_lines_from_len(s, self.cursor());
        }
        let mut items: Vec<RuleItem> = Vec::new();

        while self.tok.kind != TokenKind::End
            invariant
                self.wf(),
                self.source() == s,
                ls == lines_from(s, old(self).cursor()),
                s == old(self).source(),
                ls.len() <= s.len() <= usize::MAX,
                items.len() <= ls.len(),
                lines_from(s, self.cursor()) == ls.subrange(items.len() as int, ls.len() as int),
                first_error(ls, 0) == first_error(ls, items.len() as int),
                forall|k: int| 0 <= k < items.len() ==> rule_matches(#[trigger] items@[k], ls[k]),
            decreases s.len() - self.cursor(),
        {
            let ghost k = items.len() as int;
            let ghost q = self.cursor();
            proof {
                lemma_line_next_bounds(s, q);
                assert(lines_from(s, q) == seq![line_fields(s, q)] + lines_from(s, line_next(s, q)));
                assert(ls[k] == line_fields(s, q)) by {
                    assert(ls.subrange(k, ls.len() as int)[0] == ls[k]);
                }
                assert(lines_from(s, line_next(s, q)) =~= ls.subrange(k + 1, ls.len() as int)) by {
                    assert(ls.subrange(k + 1, ls.len() as int) =~= ls.subrange(k, ls.len() as int).subrange(1, ls.len() - k));
                }
            }
            let line_parts = self.read_line();
            proof {
                assert(first_error(ls, k) == (if line_error(ls[k], (k + 1) as nat) is Some {
                    line_error(ls[k], (k + 1) as nat)
                } else {
                    first_error(ls, k + 1)
                }));
            }

            if line_parts.len() == 4 {
                let url_src = match parse_uri(line_parts[0].as_str()) {
                    Ok(x) => x,
                    Err(_) => {
                        return Err(ParseError::InvalidUri { field: Field::Source, text: line_parts[0].clone() });
                    },
                };
                let url_dest = match parse_uri(line_parts[1].as_str()) {
                    Ok(x) => x,
                    Err(_) => {
                        return Err(ParseError::InvalidUri { field: Field::Destination, text: line_parts[1].clone() });
                    },
                };
                let req_type = match ReqKind::from_keyword(&line_parts[2]) {
                    Some(x) => x,
                    None => {
                        return Err(ParseError::UnknownKeyword { field: Field::Request, text: line_parts[2].clone() });
                    },
                };
                let action_type = match ActionKind::from_keyword(&line_parts[3]) {
                    Some(x) => x,
                    None => {
                        return Err(ParseError::UnknownKeyword { field: Field::Action, text: line_parts[3].clone() });
                    },
                };

                let rule = FilterRule { source: url_src, destination: url_dest, req_type, action_type };

                items.push(RuleItem::Filter(rule));
            } else if line_parts.len() == 3 {
                let setting = SettingRule {
                    name: line_parts[0].clone(),
                    location: line_parts[1].clone(),
                    val: line_parts[2].clone(),
                };

                items.push(RuleItem::Setting(setting));
            } else {
                return Err(ParseError::MalformedLine { line: items.len() + 1, field_count: line_parts.len() });
            }
        }

        Ok(items)
    }

    /// Returns the fields of the next line, and moves past its terminator.
    fn read_line(&mut self) -> (fields: Vec<String>)
        requires
            old(self).wf(),
        ensures
            final(self).wf(),
            final(self).source() == old(self).source(),
            final(self).cursor() == line_next(old(self).source(), old(self).cursor()),
            fields.len() == line_fields(old(self).source(), old(self).cursor()).len(),
            forall|i: int| 0 <= i < fields.len() ==> #[trigger] fields@[i]@ == line_fields(
                old(self).source(),
                old(self).cursor(),
            )[i],
    {
        let ghost s = self.source();
        let ghost q0 = self.cursor();
        let ghost mut got: Seq<Seq<char>> = Seq::empty();
        let mut items: Vec<String> = Vec::new();

        while self.tok.kind != TokenKind::Eol && self.tok.kind != TokenKind::End
            invariant
                self.wf(),
                self.source() == s,
                items.len() == got.len(),
                forall|i: int| 0 <= i < items.len() ==> #[trigger] items@[i]@ == got[i],
                line_fields(s, q0) == got + line_fields(s, self.cursor()),
                line_next(s, q0) == line_next(s, self.cursor()),
            decreases s.len() - self.cursor(),
        {
            proof {
                lemma_scan_bounds(s, self.cursor());
                assert(line_fields(s, q0) =~= got.push(self.tok.lexeme@) + line_fields(s, scan(s, self.cursor()).end));
                got = got.push(self.tok.lexeme@);
            }
            items.push(self.tok.lexeme.clone());
            self.next();
        }
        proof {
            assert(line_fields(s, q0) =~= got);
        }

        // The Eol or End
        self.next();

        items
    }

    /// Move the parser to the next token in the lexer.
    fn next(&mut self)
        requires
            old(self).wf(),
        ensures
            final(self).wf(),
            final(self).source() == old(self).source(),
            final(self).cursor() == scan(old(self).source(), old(self).cursor()).end,
    {
        proof {
            self.lexer.lemma_position_in_bounds();
        }
        let ghost q = self.lexer.position();
        self.tok = self.lexer.next_token();
        self.start = Ghost(q);
    }
}

} // verus!
