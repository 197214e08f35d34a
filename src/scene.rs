//! The scene file's XML-like grammar: a lexer from text to tokens and a
//! recursive-descent parser from tokens to a tree of nodes.
use crate::text::{chars_of, digit, is_digit, is_letter, is_white_space, letter, string_of, white_space};
use vstd::prelude::*;

verus! {

broadcast use vstd::seq::axiom_seq_index_decreases;

/// A scene text parsed but did not describe a scene.
#[derive(Debug)]
pub struct SceneLoadError {
    pub msg: String,
}

/// A scene text did not follow the XML-like grammar.
#[derive(Debug)]
pub struct XMLParseError {
    pub msg: String,
}

/// A token of the scene grammar. A number keeps its text, which has an
/// optional leading `-`, at least one digit and at most one `.`.
#[derive(Debug, PartialEq)]
pub enum XMLToken {
    OpenBracket,
    CloseBracket,
    OpenSlashBracket,
    CloseSlashBracket,
    Equals,
    Number(String),
    Name(String),
    Quote(String),
}

/// The mathematical form of a token.
pub enum TokenView {
    OpenBracket,
    CloseBracket,
    OpenSlashBracket,
    CloseSlashBracket,
    Equals,
    Number(Seq<char>),
    Name(Seq<char>),
    Quote(Seq<char>),
}

impl View for XMLToken {
    type V = TokenView;

    open spec fn view(&self) -> TokenView {
        match self {
            XMLToken::OpenBracket => TokenView::OpenBracket,
            XMLToken::CloseBracket => TokenView::CloseBracket,
            XMLToken::OpenSlashBracket => TokenView::OpenSlashBracket,
            XMLToken::CloseSlashBracket => TokenView::CloseSlashBracket,
            XMLToken::Equals => TokenView::Equals,
            XMLToken::Number(s) => TokenView::Number(s@),
            XMLToken::Name(s) => TokenView::Name(s@),
            XMLToken::Quote(s) => TokenView::Quote(s@),
        }
    }
}

pub open spec fn tokens_view(v: Seq<XMLToken>) -> Seq<TokenView> {
    v.map_values(|t: XMLToken| t@)
}

/// Where the lexer stands between two characters.
#[derive(Debug, Clone, Copy, PartialEq, Eq, Structural)]
pub enum RegexStates {
    Ready,
    StartBracket,
    Slash,
    InNumber,
    InName,
    InQuote,
}

/// What the lexer knows after a prefix of the text: its state, the
/// characters of the name, number or quote being read, and the tokens so far.
pub struct LexScan {
    pub state: RegexStates,
    pub acc: Seq<char>,
    pub tokens: Seq<TokenView>,
}

pub open spec fn count_digits(s: Seq<char>) -> nat
    decreases s.len(),
{
    if s.len() == 0 {
        0
    } else {
        count_digits(s.drop_last()) + if is_digit(s.last()) { 1nat } else { 0nat }
    }
}

pub open spec fn count_dots(s: Seq<char>) -> nat
    decreases s.len(),
{
    if s.len() == 0 {
        0
    } else {
        count_dots(s.drop_last()) + if s.last() == '.' { 1nat } else { 0nat }
    }
}

/// The text of a number as the lexer gathers it (a digit or `-`, then digits
/// and dots) is a decimal number when it has a digit and at most one dot.
pub open spec fn is_number_text(s: Seq<char>) -> bool {
    count_digits(s) >= 1 && count_dots(s) <= 1
}

/// One character read in the ready state.
pub open spec fn lex_ready(st: LexScan, c: char) -> Option<LexScan> {
    let ready = LexScan { state: RegexStates::Ready, ..st };
    if c == '<' {
        Some(LexScan { state: RegexStates::StartBracket, ..st })
    } else if c == '/' {
        Some(LexScan { state: RegexStates::Slash, ..st })
    } else if c == '>' {
        Some(LexScan { tokens: st.tokens.push(TokenView::CloseBracket), ..ready })
    } else if c == '=' {
        Some(LexScan { tokens: st.tokens.push(TokenView::Equals), ..ready })
    } else if c == '"' {
        Some(LexScan { state: RegexStates::InQuote, ..st })
    } else if is_digit(c) || c == '-' {
        Some(LexScan { state: RegexStates::InNumber, acc: st.acc.push(c), ..st })
    } else if is_letter(c) {
        Some(LexScan { state: RegexStates::InName, acc: st.acc.push(c), ..st })
    } else if is_white_space(c) {
        Some(ready)
    } else {
        None
    }
}

/// One character of the text. A name or number ends at the first character
/// that cannot extend it, and that character is then read afresh; so is the
/// character after a `<` that is not `/`.
pub open spec fn lex_step(st: LexScan, c: char) -> Option<LexScan> {
    match st.state {
        RegexStates::Ready => lex_ready(st, c),
        RegexStates::Slash => if c == '>' {
            Some(LexScan { state: RegexStates::Ready, tokens: st.tokens.push(TokenView::CloseSlashBracket), ..st })
        } else if is_white_space(c) {
            Some(st)
        } else {
            None
        },
        RegexStates::StartBracket => if c == '/' {
            Some(LexScan { state: RegexStates::Ready, tokens: st.tokens.push(TokenView::OpenSlashBracket), ..st })
        } else {
            lex_ready(LexScan { state: RegexStates::Ready, tokens: st.tokens.push(TokenView::OpenBracket), ..st }, c)
        },
        RegexStates::InName => if is_letter(c) || is_digit(c) {
            Some(LexScan { acc: st.acc.push(c), ..st })
        } else {
            lex_ready(LexScan { state: RegexStates::Ready, acc: Seq::empty(), tokens: st.tokens.push(TokenView::Name(st.acc)) }, c)
        },
        RegexStates::InNumber => if is_digit(c) || c == '.' {
            Some(LexScan { acc: st.acc.push(c), ..st })
        } else if is_number_text(st.acc) {
            lex_ready(LexScan { state: RegexStates::Ready, acc: Seq::empty(), tokens: st.tokens.push(TokenView::Number(st.acc)) }, c)
        } else {
            None
        },
        RegexStates::InQuote => if c == '"' {
            Some(LexScan { state: RegexStates::Ready, acc: Seq::empty(), tokens: st.tokens.push(TokenView::Quote(st.acc)) })
        } else {
            Some(LexScan { acc: st.acc.push(c), ..st })
        },
    }
}

/// The lexer's state after the whole of `s`, or `None` once a character
/// has been rejected.
pub open spec fn lex_scan(s: Seq<char>) -> Option<LexScan>
    decreases s.len(),
{
    if s.len() == 0 {
        Some(LexScan { state: RegexStates::Ready, acc: Seq::empty(), tokens: Seq::empty() })
    } else {
        match lex_scan(s.drop_last()) {
            Some(st) => lex_step(st, s.last()),
            None => None,
        }
    }
}

/// The tokens of the text `s`; whatever is still being read at its end is
/// dropped.
pub open spec fn lexed(s: Seq<char>) -> Option<Seq<TokenView>> {
    match lex_scan(s) {
        Some(st) => Some(st.tokens),
        None => None,
    }
}

/// The token list of a text, with a read position for the parser.
pub struct TokenizedFile {
    pub tokens: Vec<XMLToken>,
    pub current_index: usize,
}

pub open spec fn scan_of(state: RegexStates, acc: Seq<char>, tokens: Seq<XMLToken>) -> LexScan {
    LexScan { state, acc, tokens: tokens_view(tokens) }
}

proof fn lemma_push_token(v: Seq<XMLToken>, t: XMLToken)
    ensures
        tokens_view(v.push(t)) == tokens_view(v).push(t@),
{
    assert(tokens_view(v.push(t)) =~= tokens_view(v).push(t@));
}

fn is_number_chars(acc: &Vec<char>) -> (r: bool)
    ensures
        r == is_number_text(acc@),
{
    let mut digits: usize = 0;
    let mut dots: usize = 0;
    let mut j: usize = 0;
    while j < acc.len()
        invariant
            j <= acc@.len(),
            digits == count_digits(acc@.take(j as int)),
            dots == count_dots(acc@.take(j as int)),
            digits <= j,
            dots <= j,
        decreases acc@.len() - j,
    {
        assert(acc@.take(j + 1).drop_last() == acc@.take(j as int));
        if digit(acc[j]) {
            digits = digits + 1;
        }
        if acc[j] == '.' {
            dots = dots + 1;
        }
        j = j + 1;
    }
    assert(acc@.take(acc@.len() as int) == acc@);
    digits >= 1 && dots <= 1
}

/// One character in the ready state, as `lex_ready` says.
fn lex_ready_char(c: char, state: &mut RegexStates, acc: &mut Vec<char>, tokens: &mut Vec<XMLToken>) -> (ok: bool)
    ensures
        ok == lex_ready(scan_of(*old(state), old(acc)@, old(tokens)@), c) is Some,
        ok ==> lex_ready(scan_of(*old(state), old(acc)@, old(tokens)@), c) == Some(
            scan_of(*final(state), final(acc)@, final(tokens)@),
        ),
{
    proof {
        lemma_push_token(tokens@, XMLToken::CloseBracket);
        lemma_push_token(tokens@, XMLToken::Equals);
    }
    if c == '<' {
        *state = RegexStates::StartBracket;
    } else if c == '/' {
        *state = RegexStates::Slash;
    } else if c == '>' {
        tokens.push(XMLToken::CloseBracket);
        *state = RegexStates::Ready;
    } else if c == '=' {
        tokens.push(XMLToken::Equals);
        *state = RegexStates::Ready;
    } else if c == '"' {
        *state = RegexStates::InQuote;
    } else if digit(c) || c == '-' {
        acc.push(c);
        *state = RegexStates::InNumber;
    } else if letter(c) {
        acc.push(c);
        *state = RegexStates::InName;
    } else if white_space(c) {
        *state = RegexStates::Ready;
    } else {
        return false;
    }
    true
}

/// Once a prefix of a text is rejected, so is the whole text.
proof fn lemma_lex_rejected_prefix(s: Seq<char>, j: int)
    requires
        0 <= j <= s.len(),
        lex_scan(s.take(j)) is None,
    ensures
        lex_scan(s) is None,
    decreases s.len() - j,
{
    if j < s.len() {
        assert(s.take(j + 1).drop_last() == s.take(j));
        lemma_lex_rejected_prefix(s, j + 1);
    } else {
        assert(s.take(j) == s);
    }
}

/// Splits a scene text into tokens. `<`, `</`, `>`, `/>` and `=` are
/// tokens; a name is a letter followed by letters and digits; a number
/// starts with a digit or `-` and goes on with digits and dots; a quote runs
/// to the next `"`. White space separates tokens. Any other character, or a
/// number text with no digit or more than one dot, rejects the text.
pub fn lex_scene_file(raw_text: &str) -> (r: Option<TokenizedFile>)
    ensures
        r is Some <==> lexed(raw_text@) is Some,
        r is Some ==> tokens_view(r->Some_0.tokens@) == lexed(raw_text@)->Some_0,
        r is Some ==> r->Some_0.current_index == 0,
{
    let cs: Vec<char> = chars_of(raw_text);
    let mut tokens: Vec<XMLToken> = Vec::new();
    let mut acc: Vec<char> = Vec::new();
    let mut state: RegexStates = RegexStates::Ready;
    let mut i: usize = 0;
    proof {
        assert(tokens_view(tokens@) =~= Seq::<TokenView>::empty());
        assert(cs@.take(0) =~= Seq::<char>::empty());
    }
    while i < cs.len()
        invariant
            cs@ == raw_text@,
            i <= cs@.len(),
            lex_scan(cs@.take(i as int)) == Some(scan_of(state, acc@, tokens@)),
        decreases cs@.len() - i,
    {
        let c: char = cs[i];
        proof {
            assert(cs@.take(i + 1).drop_last() == cs@.take(i as int));
            assert(cs@.take(i + 1).last() == c);
        }
        let ghost st = scan_of(state, acc@, tokens@);
        let ok: bool = match state {
            RegexStates::Ready => lex_ready_char(c, &mut state, &mut acc, &mut tokens),
            RegexStates::Slash => {
                if c == '>' {
                    proof {
                        lemma_push_token(tokens@, XMLToken::CloseSlashBracket);
                    }
                    tokens.push(XMLToken::CloseSlashBracket);
                    state = RegexStates::Ready;
                    true
                } else {
                    white_space(c)
                }
            },
            RegexStates::StartBracket => {
                if c == '/' {
                    proof {
                        lemma_push_token(tokens@, XMLToken::OpenSlashBracket);
                    }
                    tokens.push(XMLToken::OpenSlashBracket);
                    state = RegexStates::Ready;
                    true
                } else {
                    proof {
                        lemma_push_token(tokens@, XMLToken::OpenBracket);
                    }
                    tokens.push(XMLToken::OpenBracket);
                    state = RegexStates::Ready;
                    lex_ready_char(c, &mut state, &mut acc, &mut tokens)
                }
            },
            RegexStates::InName => {
                if letter(c) || digit(c) {
                    acc.push(c);
                    true
                } else {
                    let name: String = string_of(acc.as_slice());
                    proof {
                        lemma_push_token(tokens@, XMLToken::Name(name));
                    }
                    tokens.push(XMLToken::Name(name));
                    acc = Vec::new();
                    state = RegexStates::Ready;
                    lex_ready_char(c, &mut state, &mut acc, &mut tokens)
                }
            },
            RegexStates::InNumber => {
                if digit(c) || c == '.' {
                    acc.push(c);
                    true
                } else if is_number_chars(&acc) {
                    let text: String = string_of(acc.as_slice());
                    proof {
                        lemma_push_token(tokens@, XMLToken::Number(text));
                    }
                    tokens.push(XMLToken::Number(text));
                    acc = Vec::new();
                    state = RegexStates::Ready;
                    lex_ready_char(c, &mut state, &mut acc, &mut tokens)
                } else {
                    false
                }
            },
            RegexStates::InQuote => {
                if c == '"' {
                    let text: String = string_of(acc.as_slice());
                    proof {
                        lemma_push_token(tokens@, XMLToken::Quote(text));
                    }
                    tokens.push(XMLToken::Quote(text));
                    acc = Vec::new();
                    state = RegexStates::Ready;
                } else {
                    acc.push(c);
                }
                true
            },
        };
        if !ok {
            proof {
                lemma_lex_rejected_prefix(cs@, i + 1);
            }
            return None;
        }
        proof {
            assert(lex_step(st, c) == Some(scan_of(state, acc@, tokens@)));
        }
        i = i + 1;
    }
    proof {
        assert(cs@.take(cs@.len() as int) == cs@);
    }
    Some(TokenizedFile { tokens, current_index: 0 })
}

impl TokenizedFile {
    pub open spec fn wf(&self) -> bool {
        self.current_index <= self.tokens@.len()
    }

    pub open spec fn toks(&self) -> Seq<TokenView> {
        tokens_view(self.tokens@)
    }

    /// Whether every token has been read.
    pub fn is_empty(&self) -> (r: bool)
        ensures
            r == (self.tokens@.len() == self.current_index),
    {
        self.tokens.len() == self.current_index
    }

    /// Moves the read position past one token.
    pub fn consume(&mut self)
        requires
            old(self).current_index < old(self).tokens.len(),
        ensures
            final(self).tokens@ == old(self).tokens@,
            final(self).current_index == old(self).current_index + 1,
    {
        self.current_index = self.current_index + 1
    }

    /// The read position, to come back to after a failed match.
    pub fn save_checkpoint(&self) -> (r: usize)
        ensures
            r == self.current_index,
    {
        self.current_index
    }

    /// Goes back to a read position saved before.
    pub fn restore_checkpoint(&mut self, checkpoint: usize)
        ensures
            final(self).tokens@ == old(self).tokens@,
            final(self).current_index == checkpoint,
    {
        self.current_index = checkpoint
    }
}

/// A node of the scene tree: an element with a name and children, a number
/// (no name, its text as data) or a quoted string (the string as name).
#[derive(Debug)]
pub struct XMLNode {
    pub name: String,
    pub attributes: Vec<String>,
    pub data: Option<String>,
    pub children: Vec<XMLNode>,
}

/// The mathematical form of a node.
pub struct NodeView {
    pub name: Seq<char>,
    pub data: Option<Seq<char>>,
    pub children: Seq<NodeView>,
}

pub open spec fn text_view(o: Option<String>) -> Option<Seq<char>> {
    match o {
        Some(s) => Some(s@),
        None => None,
    }
}

/// `n` has the name, data and children that `t` gives, and no attributes.
pub open spec fn node_matches(n: XMLNode, t: NodeView) -> bool
    decreases t,
{
    &&& n.name@ == t.name
    &&& text_view(n.data) == t.data
    &&& n.attributes@.len() == 0
    &&& n.children@.len() == t.children.len()
    &&& forall|i: int|
        0 <= i < t.children.len() ==> node_matches(#[trigger] n.children@[i], t.children[i])
}

pub open spec fn nodes_match(ns: Seq<XMLNode>, ts: Seq<NodeView>) -> bool {
    &&& ns.len() == ts.len()
    &&& forall|i: int| 0 <= i < ts.len() ==> node_matches(#[trigger] ns[i], ts[i])
}

pub open spec fn leaf(name: Seq<char>, data: Option<Seq<char>>) -> NodeView {
    NodeView { name, data, children: Seq::empty() }
}

/// `<name>` at `pos`.
pub open spec fn tag_start_at(toks: Seq<TokenView>, pos: int) -> Option<Seq<char>> {
    if 0 <= pos && pos + 2 < toks.len() && toks[pos] is OpenBracket && toks[pos + 1] is Name
        && toks[pos + 2] is CloseBracket {
        Some(toks[pos + 1]->Name_0)
    } else {
        None
    }
}

/// `<name/>` at `pos`.
pub open spec fn tag_start_and_end_at(toks: Seq<TokenView>, pos: int) -> Option<Seq<char>> {
    if 0 <= pos && pos + 2 < toks.len() && toks[pos] is OpenBracket && toks[pos + 1] is Name
        && toks[pos + 2] is CloseSlashBracket {
        Some(toks[pos + 1]->Name_0)
    } else {
        None
    }
}

/// `</name>` at `pos`.
pub open spec fn tag_end_at(toks: Seq<TokenView>, pos: int, name: Seq<char>) -> bool {
    &&& 0 <= pos && pos + 2 < toks.len()
    &&& toks[pos] is OpenSlashBracket
    &&& toks[pos + 1] == TokenView::Name(name)
    &&& toks[pos + 2] is CloseBracket
}

/// The element that starts at `pos`, with the position after it:
/// `<name> content </name>` or `<name/>`.
pub open spec fn tag_at(toks: Seq<TokenView>, pos: int) -> Option<(NodeView, int)>
    decreases toks.len() - pos, 0nat,
{
    match tag_start_at(toks, pos) {
        Some(name) => match content_at(toks, pos + 3, Seq::empty()) {
            Some((children, p)) => if tag_end_at(toks, p, name) {
                Some((NodeView { name, data: None, children }, p + 3))
            } else {
                None
            },
            None => None,
        },
        None => match tag_start_and_end_at(toks, pos) {
            Some(name) => Some((leaf(name, None), pos + 3)),
            None => None,
        },
    }
}

/// The content that starts at `pos`, after the children `acc` already read:
/// numbers, quotes and elements, up to the first other token. An element
/// always ends after its start and within the list (`lemma_tag_advances`);
/// the test on `p` states it where the recursion needs it.
pub open spec fn content_at(toks: Seq<TokenView>, pos: int, acc: Seq<NodeView>) -> Option<(Seq<NodeView>, int)>
    decreases toks.len() - pos, 1nat,
{
    if 0 <= pos < toks.len() {
        match toks[pos] {
            TokenView::Number(text) => content_at(toks, pos + 1, acc.push(leaf(Seq::empty(), Some(text)))),
            TokenView::Quote(text) => content_at(toks, pos + 1, acc.push(leaf(text, None))),
            TokenView::OpenBracket => match tag_at(toks, pos) {
                Some((child, p)) => if pos < p <= toks.len() {
                    content_at(toks, p, acc.push(child))
                } else {
                    None
                },
                None => None,
            },
            _ => Some((acc, pos)),
        }
    } else {
        Some((acc, pos))
    }
}

/// The tree of a whole token list: a node named `file` whose one child is
/// the element at the start; tokens after that element are not read.
pub open spec fn file_tree(toks: Seq<TokenView>) -> Option<NodeView> {
    if toks.len() == 0 {
        Some(leaf(seq!['f', 'i', 'l', 'e'], None))
    } else {
        match tag_at(toks, 0) {
            Some((child, _)) => Some(NodeView { name: seq!['f', 'i', 'l', 'e'], data: None, children: seq![child] }),
            None => None,
        }
    }
}

proof fn lemma_content_advances(toks: Seq<TokenView>, pos: int, acc: Seq<NodeView>)
    requires
        content_at(toks, pos, acc) is Some,
    ensures
        content_at(toks, pos, acc)->Some_0.1 >= pos,
    decreases toks.len() - pos,
{
    if 0 <= pos < toks.len() {
        match toks[pos] {
            TokenView::Number(text) => lemma_content_advances(toks, pos + 1, acc.push(leaf(Seq::empty(), Some(text)))),
            TokenView::Quote(text) => lemma_content_advances(toks, pos + 1, acc.push(leaf(text, None))),
            TokenView::OpenBracket => {
                let (child, p) = tag_at(toks, pos)->Some_0;
                lemma_content_advances(toks, p, acc.push(child));
            },
            _ => {},
        }
    }
}

proof fn lemma_tag_advances(toks: Seq<TokenView>, pos: int)
    requires
        tag_at(toks, pos) is Some,
    ensures
        tag_at(toks, pos)->Some_0.1 >= pos + 3,
{
    if tag_start_at(toks, pos) is Some {
        lemma_content_advances(toks, pos + 3, Seq::empty());
    }
}

fn parse_error(msg: &str) -> (e: XMLParseError) {
    XMLParseError { msg: String::from_str(msg) }
}

/// Reads `<name>`, giving the name; on failure the position stays.
fn parse_tag_start(tokens: &mut TokenizedFile) -> (r: Result<String, XMLParseError>)
    requires
        old(tokens).wf(),
    ensures
        final(tokens).wf(),
        final(tokens).tokens@ == old(tokens).tokens@,
        match tag_start_at(old(tokens).toks(), old(tokens).current_index as int) {
            Some(name) => r is Ok && r->Ok_0@ == name && final(tokens).current_index == old(tokens).current_index + 3,
            None => r is Err && final(tokens).current_index == old(tokens).current_index,
        },
{
    let start_checkpoint: usize = tokens.save_checkpoint();
    let i: usize = tokens.current_index;
    if tokens.tokens.len() - i < 3 {
        return Err(parse_error("tag did not start with open bracket"));
    }
    match (&tokens.tokens[i], &tokens.tokens[i + 1], &tokens.tokens[i + 2]) {
        (XMLToken::OpenBracket, XMLToken::Name(name), XMLToken::CloseBracket) => {
            let tag_name: String = name.clone();
            tokens.consume();
            tokens.consume();
            tokens.consume();
            Ok(tag_name)
        },
        _ => {
            tokens.restore_checkpoint(start_checkpoint);
            Err(parse_error("tag is not of the form <name>"))
        },
    }
}

/// Reads `<name/>`, giving the name; on failure the position stays.
fn parse_tag_start_and_end(tokens: &mut TokenizedFile) -> (r: Result<String, XMLParseError>)
    requires
        old(tokens).wf(),
    ensures
        final(tokens).wf(),
        final(tokens).tokens@ == old(tokens).tokens@,
        match tag_start_and_end_at(old(tokens).toks(), old(tokens).current_index as int) {
            Some(name) => r is Ok && r->Ok_0@ == name && final(tokens).current_index == old(tokens).current_index + 3,
            None => r is Err && final(tokens).current_index == old(tokens).current_index,
        },
{
    let start_checkpoint: usize = tokens.save_checkpoint();
    let i: usize = tokens.current_index;
    if tokens.tokens.len() - i < 3 {
        return Err(parse_error("tag did not start with open bracket"));
    }
    match (&tokens.tokens[i], &tokens.tokens[i + 1], &tokens.tokens[i + 2]) {
        (XMLToken::OpenBracket, XMLToken::Name(name), XMLToken::CloseSlashBracket) => {
            let tag_name: String = name.clone();
            tokens.consume();
            tokens.consume();
            tokens.consume();
            Ok(tag_name)
        },
        _ => {
            tokens.restore_checkpoint(start_checkpoint);
            Err(parse_error("tag is not of the form <name/>"))
        },
    }
}

/// Reads `</name>` for the given name; on failure the position stays.
fn parse_tag_end(tokens: &mut TokenizedFile, name: &String) -> (r: Result<(), XMLParseError>)
    requires
        old(tokens).wf(),
    ensures
        final(tokens).wf(),
        final(tokens).tokens@ == old(tokens).tokens@,
        tag_end_at(old(tokens).toks(), old(tokens).current_index as int, name@) ==> r is Ok
            && final(tokens).current_index == old(tokens).current_index + 3,
        !tag_end_at(old(tokens).toks(), old(tokens).current_index as int, name@) ==> r is Err
            && final(tokens).current_index == old(tokens).current_index,
{
    let start_checkpoint: usize = tokens.save_checkpoint();
    let i: usize = tokens.current_index;
    if tokens.tokens.len() - i < 3 {
        return Err(parse_error("closing tag is missing"));
    }
    match (&tokens.tokens[i], &tokens.tokens[i + 1], &tokens.tokens[i + 2]) {
        (XMLToken::OpenSlashBracket, XMLToken::Name(tag_name), XMLToken::CloseBracket) => {
            if *tag_name != *name {
                tokens.restore_checkpoint(start_checkpoint);
                return Err(parse_error("closing tag name does not match opening tag name"));
            }
            tokens.consume();
            tokens.consume();
            tokens.consume();
            Ok(())
        },
        _ => {
            tokens.restore_checkpoint(start_checkpoint);
            Err(parse_error("closing tag is not of the form </name>"))
        },
    }
}

/// Reads the content of an element: numbers, quotes and elements, up to the
/// first other token.
fn parse_tag_content(tokens: &mut TokenizedFile) -> (r: Result<Vec<XMLNode>, XMLParseError>)
    requires
        old(tokens).wf(),
    ensures
        final(tokens).wf(),
        final(tokens).tokens@ == old(tokens).tokens@,
        match content_at(old(tokens).toks(), old(tokens).current_index as int, Seq::empty()) {
            Some((ts, p)) => r is Ok && nodes_match(r->Ok_0@, ts) && final(tokens).current_index == p,
            None => r is Err,
        },
    decreases old(tokens).tokens@.len() - old(tokens).current_index, 1nat,
{
    let ghost toks = tokens.toks();
    let ghost start = tokens.current_index as int;
    let ghost orig = tokens.tokens@;
    let ghost mut acc: Seq<NodeView> = Seq::empty();
    let mut children: Vec<XMLNode> = Vec::new();
    loop
        invariant
            tokens.wf(),
            tokens.tokens@ == orig,
            orig == old(tokens).tokens@,
            start == old(tokens).current_index,
            toks == tokens_view(orig),
            tokens.toks() == toks,
            start <= tokens.current_index,
            nodes_match(children@, acc),
            content_at(toks, tokens.current_index as int, acc) == content_at(toks, start, Seq::empty()),
        decreases tokens.tokens@.len() - tokens.current_index,
    {
        let i: usize = tokens.current_index;
        if i >= tokens.tokens.len() {
            return Ok(children);
        }
        match &tokens.tokens[i] {
            XMLToken::Number(text) => {
                let node = XMLNode { name: String::new(), attributes: Vec::new(), data: Some(text.clone()), children: Vec::new() };
                proof {
                    let t = leaf(Seq::empty(), Some(text@));
                    assert(node_matches(node, t));
                    assert(nodes_match(children@.push(node), acc.push(t)));
                    acc = acc.push(t);
                }
                children.push(node);
                tokens.consume();
            },
            XMLToken::Quote(text) => {
                let node = XMLNode { name: text.clone(), attributes: Vec::new(), data: None, children: Vec::new() };
                proof {
                    let t = leaf(text@, None);
                    assert(node_matches(node, t));
                    assert(nodes_match(children@.push(node), acc.push(t)));
                    acc = acc.push(t);
                }
                children.push(node);
                tokens.consume();
            },
            XMLToken::OpenBracket => {
                let child = parse_xml_node(tokens)?;
                proof {
                    let (t, p) = tag_at(toks, i as int)->Some_0;
                    lemma_tag_advances(toks, i as int);
                    assert(nodes_match(children@.push(child), acc.push(t)));
                    acc = acc.push(t);
                }
                children.push(child);
            },
            _ => {
                return Ok(children);
            },
        }
    }
}

/// Reads one element: `<name> content </name>` or `<name/>`.
fn parse_xml_node(tokens: &mut TokenizedFile) -> (r: Result<XMLNode, XMLParseError>)
    requires
        old(tokens).wf(),
    ensures
        final(tokens).wf(),
        final(tokens).tokens@ == old(tokens).tokens@,
        match tag_at(old(tokens).toks(), old(tokens).current_index as int) {
            Some((t, p)) => r is Ok && node_matches(r->Ok_0, t) && final(tokens).current_index == p,
            None => r is Err,
        },
    decreases old(tokens).tokens@.len() - old(tokens).current_index, 0nat,
{
    let start_checkpoint: usize = tokens.save_checkpoint();
    match parse_tag_start(tokens) {
        Ok(name) => {
            let children = match parse_tag_content(tokens) {
                Ok(children) => children,
                Err(e) => {
                    tokens.restore_checkpoint(start_checkpoint);
                    return Err(e);
                },
            };
            if let Err(e) = parse_tag_end(tokens, &name) {
                tokens.restore_checkpoint(start_checkpoint);
                return Err(e);
            }
            Ok(XMLNode { name, attributes: Vec::new(), data: None, children })
        },
        Err(_) => {
            let name = parse_tag_start_and_end(tokens)?;
            Ok(XMLNode { name, attributes: Vec::new(), data: None, children: Vec::new() })
        },
    }
}

/// Parses a scene text into a tree whose root is named `file` and holds the
/// first element of the text, if there is one.
pub fn parse_scene_file(raw_text: &str) -> (r: Result<XMLNode, XMLParseError>)
    ensures
        match lexed(raw_text@) {
            Some(toks) => match file_tree(toks) {
                Some(t) => r is Ok && node_matches(r->Ok_0, t),
                None => r is Err,
            },
            None => r is Err,
        },
{
    let mut tokenized_file = match lex_scene_file(raw_text) {
        Some(t) => t,
        None => {
            return Err(parse_error("unsupported character in file"));
        },
    };
    let mut node = XMLNode { name: String::from_str("file"), attributes: Vec::new(), data: None, children: Vec::new() };
    proof {
        reveal_strlit("file");
        assert(node.name@ =~= seq!['f', 'i', 'l', 'e']);
    }
    if tokenized_file.is_empty() {
        proof {
            assert(node_matches(node, leaf(seq!['f', 'i', 'l', 'e'], None)));
        }
        return Ok(node);
    }
    let child = parse_xml_node(&mut tokenized_file)?;
    node.children.push(child);
    proof {
        let ghost t = tag_at(tokenized_file.toks(), 0)->Some_0.0;
        assert(node.children@ =~= seq![child]);
        assert(node_matches(node, NodeView { name: seq!['f', 'i', 'l', 'e'], data: None, children: seq![t] }));
    }
    Ok(node)
}

/// The kinds of scene element.
#[derive(Debug, Clone, Copy, PartialEq, Eq, Structural)]
pub enum ElementKind {
    Model,
    Light,
    Camera,
}

/// The kinds of property an element can have.
#[derive(Debug, Clone, Copy, PartialEq, Eq, Structural)]
pub enum PropertyKind {
    Mesh,
    Rotation,
    Position,
    Strength,
    Color,
    Projection,
    LookAt,
    Up,
}

/// One property tag of an element: its kind and its values, which are the
/// number texts of its children, or for a mesh the quoted path.
#[derive(Debug)]
pub struct Property {
    pub kind: PropertyKind,
    pub values: Vec<String>,
}

/// One element of a scene with its properties, in the order they were given.
#[derive(Debug)]
pub struct Element {
    pub kind: ElementKind,
    pub properties: Vec<Property>,
}

pub open spec fn strings_view(v: Seq<String>) -> Seq<Seq<char>> {
    v.map_values(|s: String| s@)
}

/// The element kind a tag name stands for.
pub open spec fn element_kind(name: Seq<char>) -> Option<ElementKind> {
    if name == "model"@ {
        Some(ElementKind::Model)
    } else if name == "light"@ {
        Some(ElementKind::Light)
    } else if name == "camera"@ {
        Some(ElementKind::Camera)
    } else {
        None
    }
}

/// The property kind a tag name stands for in an element of kind `e`, with
/// the number of values it takes: a model has a mesh path, a rotation (roll,
/// pitch, yaw) and a position; a light a strength, a color (red, green, blue)
/// and a position; a camera a projection (width, height, field of view, near
/// and far plane), a position, a point to look at and an up direction.
pub open spec fn property_kind(e: ElementKind, name: Seq<char>) -> Option<(PropertyKind, nat)> {
    match e {
        ElementKind::Model => if name == "mesh"@ {
            Some((PropertyKind::Mesh, 1nat))
        } else if name == "rotation"@ {
            Some((PropertyKind::Rotation, 3nat))
        } else if name == "position"@ {
            Some((PropertyKind::Position, 3nat))
        } else {
            None
        },
        ElementKind::Light => if name == "strength"@ {
            Some((PropertyKind::Strength, 1nat))
        } else if name == "color"@ {
            Some((PropertyKind::Color, 3nat))
        } else if name == "position"@ {
            Some((PropertyKind::Position, 3nat))
        } else {
            None
        },
        ElementKind::Camera => if name == "projection"@ {
            Some((PropertyKind::Projection, 5nat))
        } else if name == "position"@ {
            Some((PropertyKind::Position, 3nat))
        } else if name == "lookat"@ {
            Some((PropertyKind::LookAt, 3nat))
        } else if name == "up"@ {
            Some((PropertyKind::Up, 3nat))
        } else {
            None
        },
    }
}

/// The values of a property tag: exactly `count` children, all numbers (for
/// a mesh, one child whose name is the path).
pub open spec fn property_values(p: XMLNode, kind: PropertyKind, count: nat) -> Option<Seq<Seq<char>>> {
    if p.children@.len() != count {
        None
    } else if kind == PropertyKind::Mesh {
        Some(seq![p.children@[0].name@])
    } else if forall|i: int| 0 <= i < count ==> (#[trigger] p.children@[i]).data is Some {
        Some(Seq::new(count, |i: int| p.children@[i].data->Some_0@))
    } else {
        None
    }
}

/// The property a tag gives in an element of kind `e`.
pub open spec fn property_of(e: ElementKind, p: XMLNode) -> Option<(PropertyKind, Seq<Seq<char>>)> {
    match property_kind(e, p.name@) {
        Some((kind, count)) => match property_values(p, kind, count) {
            Some(values) => Some((kind, values)),
            None => None,
        },
        None => None,
    }
}

/// All properties of an element tag are valid for its kind.
pub open spec fn element_valid(e: ElementKind, n: XMLNode) -> bool {
    forall|i: int| 0 <= i < n.children@.len() ==> property_of(e, #[trigger] n.children@[i]) is Some
}

/// `props` holds the properties of the element tag `n`, in order.
pub open spec fn properties_match(e: ElementKind, n: XMLNode, props: Seq<Property>) -> bool {
    &&& props.len() == n.children@.len()
    &&& forall|i: int|
        0 <= i < props.len() ==> property_of(e, #[trigger] n.children@[i]) == Some(
            (props[i].kind, strings_view(props[i].values@)),
        )
}

/// A scene tree describes a scene when its root is `file` with one child,
/// the scene tag, whose children are all valid models, lights and cameras.
pub open spec fn scene_valid(root: XMLNode) -> bool {
    &&& root.name@ == "file"@
    &&& root.children@.len() == 1
    &&& forall|i: int|
        0 <= i < root.children@[0].children@.len() ==> {
            let child = #[trigger] root.children@[0].children@[i];
            element_kind(child.name@) is Some && element_valid(element_kind(child.name@)->Some_0, child)
        }
}

fn named(s: &String, name: &str) -> (r: bool)
    ensures
        r == (s@ == name@),
{
    *s == String::from_str(name)
}

fn load_error(msg: &str) -> SceneLoadError {
    SceneLoadError { msg: String::from_str(msg) }
}

/// The kind and value count of a property tag in an element of kind `e`.
fn property_kind_of(e: ElementKind, name: &String) -> (r: Option<(PropertyKind, usize)>)
    ensures
        match property_kind(e, name@) {
            Some((k, c)) => r == Some((k, c as usize)),
            None => r is None,
        },
{
    match e {
        ElementKind::Model => if named(name, "mesh") {
            Some((PropertyKind::Mesh, 1))
        } else if named(name, "rotation") {
            Some((PropertyKind::Rotation, 3))
        } else if named(name, "position") {
            Some((PropertyKind::Position, 3))
        } else {
            None
        },
        ElementKind::Light => if named(name, "strength") {
            Some((PropertyKind::Strength, 1))
        } else if named(name, "color") {
            Some((PropertyKind::Color, 3))
        } else if named(name, "position") {
            Some((PropertyKind::Position, 3))
        } else {
            None
        },
        ElementKind::Camera => if named(name, "projection") {
            Some((PropertyKind::Projection, 5))
        } else if named(name, "position") {
            Some((PropertyKind::Position, 3))
        } else if named(name, "lookat") {
            Some((PropertyKind::LookAt, 3))
        } else if named(name, "up") {
            Some((PropertyKind::Up, 3))
        } else {
            None
        },
    }
}

/// Reads one property tag of an element of kind `e`.
pub fn property_from_xml_node(e: ElementKind, p: &XMLNode) -> (r: Result<Property, SceneLoadError>)
    ensures
        match property_of(e, *p) {
            Some((kind, values)) => r is Ok && r->Ok_0.kind == kind && strings_view(r->Ok_0.values@) == values,
            None => r is Err,
        },
{
    let (kind, count) = match property_kind_of(e, &p.name) {
        Some(kc) => kc,
        None => {
            return Err(load_error("element has an unknown property"));
        },
    };
    if p.children.len() != count {
        return Err(load_error("property does not have the expected number of values"));
    }
    let mut values: Vec<String> = Vec::new();
    if kind == PropertyKind::Mesh {
        values.push(p.children[0].name.clone());
        proof {
            assert(strings_view(values@) =~= seq![p.children@[0].name@]);
        }
        return Ok(Property { kind, values });
    }
    let mut i: usize = 0;
    while i < count
        invariant
            i <= count,
            count == p.children@.len(),
            kind != PropertyKind::Mesh,
            property_kind(e, p.name@) == Some((kind, count as nat)),
            forall|j: int| 0 <= j < i ==> (#[trigger] p.children@[j]).data is Some,
            strings_view(values@) =~= Seq::new(i as nat, |j: int| p.children@[j].data->Some_0@),
        decreases count - i,
    {
        match &p.children[i].data {
            Some(text) => {
                let ghost before = values@;
                values.push(text.clone());
                proof {
                    assert(strings_view(values@) =~= strings_view(before).push(text@));
                }
            },
            None => {
                return Err(load_error("property holds something other than a number"));
            },
        }
        i = i + 1;
    }
    Ok(Property { kind, values })
}

/// Reads the properties of an element tag of kind `e`, in order.
pub fn element_properties(e: ElementKind, n: &XMLNode) -> (r: Result<Vec<Property>, SceneLoadError>)
    ensures
        r is Ok <==> element_valid(e, *n),
        r is Ok ==> properties_match(e, *n, r->Ok_0@),
{
    let mut props: Vec<Property> = Vec::new();
    let mut i: usize = 0;
    while i < n.children.len()
        invariant
            i <= n.children@.len(),
            props@.len() == i,
            forall|j: int| 0 <= j < i ==> property_of(e, #[trigger] n.children@[j]) is Some,
            forall|j: int|
                0 <= j < i ==> property_of(e, #[trigger] n.children@[j]) == Some(
                    (props@[j].kind, strings_view(props@[j].values@)),
                ),
        decreases n.children@.len() - i,
    {
        let prop = property_from_xml_node(e, &n.children[i]);
        match prop {
            Ok(prop) => {
                props.push(prop);
            },
            Err(err) => {
                return Err(err);
            },
        }
        i = i + 1;
    }
    Ok(props)
}

/// Reads the elements of a parsed scene: models, lights and cameras, in the
/// order they were given.
pub fn scene_elements(root: &XMLNode) -> (r: Result<Vec<Element>, SceneLoadError>)
    ensures
        r is Ok <==> scene_valid(*root),
        r is Ok ==> r->Ok_0@.len() == root.children@[0].children@.len() && forall|i: int|
            0 <= i < r->Ok_0@.len() ==> {
                let child = #[trigger] root.children@[0].children@[i];
                Some(r->Ok_0@[i].kind) == element_kind(child.name@) && properties_match(
                    r->Ok_0@[i].kind,
                    child,
                    r->Ok_0@[i].properties@,
                )
            },
{
    if !named(&root.name, "file") {
        return Err(load_error("scene tree is malformed"));
    }
    if root.children.len() != 1 {
        return Err(load_error("no scene tag found"));
    }
    let scene = &root.children[0];
    let mut elements: Vec<Element> = Vec::new();
    let mut i: usize = 0;
    while i < scene.children.len()
        invariant
            *scene == root.children@[0],
            i <= scene.children@.len(),
            elements@.len() == i,
            forall|j: int|
                0 <= j < i ==> {
                    let child = #[trigger] scene.children@[j];
                    element_kind(child.name@) is Some && element_valid(element_kind(child.name@)->Some_0, child)
                },
            forall|j: int|
                0 <= j < i ==> {
                    let child = #[trigger] scene.children@[j];
                    Some(elements@[j].kind) == element_kind(child.name@) && properties_match(
                        elements@[j].kind,
                        child,
                        elements@[j].properties@,
                    )
                },
        decreases scene.children@.len() - i,
    {
        let child = &scene.children[i];
        let kind: ElementKind = if named(&child.name, "model") {
            ElementKind::Model
        } else if named(&child.name, "light") {
            ElementKind::Light
        } else if named(&child.name, "camera") {
            ElementKind::Camera
        } else {
            return Err(load_error("scene has an unknown tag"));
        };
        let properties = element_properties(kind, child)?;
        elements.push(Element { kind, properties });
        i = i + 1;
    }
    Ok(elements)
}

} // verus!
