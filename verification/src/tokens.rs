use vstd::prelude::*;

verus! {

/// Why a program was rejected. Every failure stops the whole run: nothing is
/// recovered from and no partial result is handed out.
#[derive(Debug, Clone, Copy, PartialEq, Eq, Structural)]
pub enum MyError {
    /// The source text could not be read as tokens. The tokenizer of this
    /// library takes every text, so no function here returns this error.
    CannotParse,
    /// An opening delimiter has no matching closer before the end of input.
    UnbalancedDelimiter,
    /// A run of tokens or segments has a shape the grammar does not know.
    MalformedGrammar,
    /// A variable was read that the current scope does not bind.
    UnboundIdentifier,
    /// No clause's pattern took the arguments, or the guards of the clause
    /// that did were all false.
    NoMatchingClause,
    /// A pattern list and an argument list differ in length.
    PatternArityMismatch,
    /// An operator or a call received a value of a kind it cannot handle.
    TypeMismatch,
    /// A pattern names a variable that the scope already binds.
    DuplicateBinding,
    /// An integer operation left the range of `i64`.
    ArithmeticOverflow,
    /// An integer was divided by zero.
    DivisionByZero,
    /// The evaluation nested more calls than its depth budget allows.
    DepthExceeded,
}

/// A lexical token. Every variant but `Identifier` is a fixed piece of
/// punctuation; `Identifier` holds a raw run of characters, which may later be
/// read as a number, a boolean or a variable name.
#[derive(Debug)]
pub enum Token {
    AND,
    Add,
    ArgTerm,
    Assign,
    CodeEnd,
    CodeStart,
    CommentEnd,
    CommentStart,
    END,
    Eq,
    FunStart,
    Identifier(Vec<char>),
    LeftB,
    LeftP,
    LeftW,
    MUL,
    NEQ,
    Pipe,
    Qualify,
    RightB,
    RightP,
    RightW,
    SUB,
}

/// The mathematical value of a [`Token`].
pub enum SpecToken {
    AND,
    Add,
    ArgTerm,
    Assign,
    CodeEnd,
    CodeStart,
    CommentEnd,
    CommentStart,
    END,
    Eq,
    FunStart,
    Identifier(Seq<char>),
    LeftB,
    LeftP,
    LeftW,
    MUL,
    NEQ,
    Pipe,
    Qualify,
    RightB,
    RightP,
    RightW,
    SUB,
}

impl DeepView for Token {
    type V = SpecToken;

    open spec fn deep_view(&self) -> SpecToken {
        match self {
            Token::AND => SpecToken::AND,
            Token::Add => SpecToken::Add,
            Token::ArgTerm => SpecToken::ArgTerm,
            Token::Assign => SpecToken::Assign,
            Token::CodeEnd => SpecToken::CodeEnd,
            Token::CodeStart => SpecToken::CodeStart,
            Token::CommentEnd => SpecToken::CommentEnd,
            Token::CommentStart => SpecToken::CommentStart,
            Token::END => SpecToken::END,
            Token::Eq => SpecToken::Eq,
            Token::FunStart => SpecToken::FunStart,
            Token::Identifier(name) => SpecToken::Identifier(name@),
            Token::LeftB => SpecToken::LeftB,
            Token::LeftP => SpecToken::LeftP,
            Token::LeftW => SpecToken::LeftW,
            Token::MUL => SpecToken::MUL,
            Token::NEQ => SpecToken::NEQ,
            Token::Pipe => SpecToken::Pipe,
            Token::Qualify => SpecToken::Qualify,
            Token::RightB => SpecToken::RightB,
            Token::RightP => SpecToken::RightP,
            Token::RightW => SpecToken::RightW,
            Token::SUB => SpecToken::SUB,
        }
    }
}

impl View for Token {
    type V = SpecToken;

    #[verifier::inline]
    open spec fn view(&self) -> SpecToken {
        self.deep_view()
    }
}

/// Whether two character vectors hold the same text.
pub fn chars_eq(a: &Vec<char>, b: &Vec<char>) -> (r: bool)
    ensures
        r == (a@ == b@),
{
    if a.len() != b.len() {
        return false;
    }
    let mut i: usize = 0;
    while i < a.len()
        invariant
            i <= a.len(),
            a.len() == b.len(),
            forall|j: int| 0 <= j < i ==> a@[j] == b@[j],
        decreases a.len() - i,
    {
        if a[i] != b[i] {
            return false;
        }
        i += 1;
    }
    assert(a@ =~= b@);
    true
}

/// The characters `text[from..to]` as a vector of their own.
pub fn copy_range(text: &Vec<char>, from: usize, to: usize) -> (r: Vec<char>)
    requires
        from <= to <= text.len(),
    ensures
        r@ == text@.subrange(from as int, to as int),
{
    let mut out: Vec<char> = Vec::new();
    let mut i: usize = from;
    while i < to
        invariant
            from <= i <= to <= text.len(),
            out@ == text@.subrange(from as int, i as int),
        decreases to - i,
    {
        out.push(text[i]);
        i += 1;
        assert(out@ =~= text@.subrange(from as int, i as int));
    }
    out
}

impl Clone for Token {
    fn clone(&self) -> (r: Token)
        ensures
            r@ == self@,
    {
        match self {
            Token::AND => Token::AND,
            Token::Add => Token::Add,
            Token::ArgTerm => Token::ArgTerm,
            Token::Assign => Token::Assign,
            Token::CodeEnd => Token::CodeEnd,
            Token::CodeStart => Token::CodeStart,
            Token::CommentEnd => Token::CommentEnd,
            Token::CommentStart => Token::CommentStart,
            Token::END => Token::END,
            Token::Eq => Token::Eq,
            Token::FunStart => Token::FunStart,
            Token::Identifier(name) => {
                let copy = copy_range(name, 0, name.len());
                assert(copy@ =~= name@);
                Token::Identifier(copy)
            },
            Token::LeftB => Token::LeftB,
            Token::LeftP => Token::LeftP,
            Token::LeftW => Token::LeftW,
            Token::MUL => Token::MUL,
            Token::NEQ => Token::NEQ,
            Token::Pipe => Token::Pipe,
            Token::Qualify => Token::Qualify,
            Token::RightB => Token::RightB,
            Token::RightP => Token::RightP,
            Token::RightW => Token::RightW,
            Token::SUB => Token::SUB,
        }
    }
}

impl PartialEq for Token {
    fn eq(&self, other: &Token) -> (r: bool) {
        match (self, other) {
            (Token::AND, Token::AND) => true,
            (Token::Add, Token::Add) => true,
            (Token::ArgTerm, Token::ArgTerm) => true,
            (Token::Assign, Token::Assign) => true,
            (Token::CodeEnd, Token::CodeEnd) => true,
            (Token::CodeStart, Token::CodeStart) => true,
            (Token::CommentEnd, Token::CommentEnd) => true,
            (Token::CommentStart, Token::CommentStart) => true,
            (Token::END, Token::END) => true,
            (Token::Eq, Token::Eq) => true,
            (Token::FunStart, Token::FunStart) => true,
            (Token::Identifier(a), Token::Identifier(b)) => chars_eq(a, b),
            (Token::LeftB, Token::LeftB) => true,
            (Token::LeftP, Token::LeftP) => true,
            (Token::LeftW, Token::LeftW) => true,
            (Token::MUL, Token::MUL) => true,
            (Token::NEQ, Token::NEQ) => true,
            (Token::Pipe, Token::Pipe) => true,
            (Token::Qualify, Token::Qualify) => true,
            (Token::RightB, Token::RightB) => true,
            (Token::RightP, Token::RightP) => true,
            (Token::RightW, Token::RightW) => true,
            (Token::SUB, Token::SUB) => true,
            _ => false,
        }
    }
}

impl vstd::std_specs::cmp::PartialEqSpecImpl for Token {
    open spec fn obeys_eq_spec() -> bool {
        true
    }

    open spec fn eq_spec(&self, other: &Token) -> bool {
        self@ == other@
    }
}

/// The closer that pairs with an opening delimiter: `(` with `)`, `[` with
/// `]`, `{` with `}`, `/` with `\`, `/*` with `*/` and `:` with `end`.
pub open spec fn closing_token(t: SpecToken) -> Option<SpecToken> {
    match t {
        SpecToken::CommentStart => Some(SpecToken::CommentEnd),
        SpecToken::LeftP => Some(SpecToken::RightP),
        SpecToken::LeftB => Some(SpecToken::RightB),
        SpecToken::LeftW => Some(SpecToken::RightW),
        SpecToken::CodeStart => Some(SpecToken::CodeEnd),
        SpecToken::FunStart => Some(SpecToken::END),
        _ => None,
    }
}

/// Whether a token is one of the binary operators `+ == =/= && * -`.
pub open spec fn is_operator(t: SpecToken) -> bool {
    t is Add || t is Eq || t is NEQ || t is AND || t is MUL || t is SUB
}

/// The closer that pairs with a token, where the token is an opening
/// delimiter.
pub fn has_pair(t: &Token) -> (r: Option<Token>)
    ensures
        r.deep_view() == closing_token(t@),
{
    match t {
        Token::CommentStart => Some(Token::CommentEnd),
        Token::LeftP => Some(Token::RightP),
        Token::LeftB => Some(Token::RightB),
        Token::LeftW => Some(Token::RightW),
        Token::CodeStart => Some(Token::CodeEnd),
        Token::FunStart => Some(Token::END),
        _ => None,
    }
}

/// Whether a token is a binary operator.
pub fn is_operator_token(t: &Token) -> (r: bool)
    ensures
        r == is_operator(t@),
{
    match t {
        Token::Add | Token::Eq | Token::NEQ | Token::AND | Token::MUL | Token::SUB => true,
        _ => false,
    }
}

/// The punctuation token spelled by one character, with its width.
pub open spec fn single_char_token(a: char) -> Option<(SpecToken, u16)> {
    if a == '+' {
        Some((SpecToken::Add, 1u16))
    } else if a == '(' {
        Some((SpecToken::LeftP, 1u16))
    } else if a == ')' {
        Some((SpecToken::RightP, 1u16))
    } else if a == '[' {
        Some((SpecToken::LeftB, 1u16))
    } else if a == ']' {
        Some((SpecToken::RightB, 1u16))
    } else if a == '{' {
        Some((SpecToken::LeftW, 1u16))
    } else if a == '}' {
        Some((SpecToken::RightW, 1u16))
    } else if a == ',' {
        Some((SpecToken::ArgTerm, 1u16))
    } else if a == '|' {
        Some((SpecToken::Pipe, 1u16))
    } else if a == '/' {
        Some((SpecToken::CodeStart, 1u16))
    } else if a == '\\' {
        Some((SpecToken::CodeEnd, 1u16))
    } else if a == ':' {
        Some((SpecToken::FunStart, 1u16))
    } else if a == '*' {
        Some((SpecToken::MUL, 1u16))
    } else if a == '-' {
        Some((SpecToken::SUB, 1u16))
    } else if a == '=' {
        Some((SpecToken::Assign, 1u16))
    } else {
        None
    }
}

/// The punctuation token that starts with the two characters given: a
/// two-character token where they spell one, else what the first spells alone.
pub open spec fn two_char_token(a: char, b: char) -> Option<(SpecToken, u16)> {
    if a == '/' && b == '*' {
        Some((SpecToken::CommentStart, 2u16))
    } else if a == '*' && b == '/' {
        Some((SpecToken::CommentEnd, 2u16))
    } else if a == '&' && b == '&' {
        Some((SpecToken::AND, 2u16))
    } else if a == '=' && b == '=' {
        Some((SpecToken::Eq, 2u16))
    } else if a == ':' && b == ':' {
        Some((SpecToken::Qualify, 2u16))
    } else {
        single_char_token(a)
    }
}

/// The punctuation token that starts with the three characters given, the
/// longest match first.
pub open spec fn three_char_token(a: char, b: char, c: char) -> Option<(SpecToken, u16)> {
    if a == '=' && b == '/' && c == '=' {
        Some((SpecToken::NEQ, 3u16))
    } else if a == 'e' && b == 'n' && c == 'd' {
        Some((SpecToken::END, 3u16))
    } else {
        two_char_token(a, b)
    }
}

/// The punctuation token that starts at `pos`, if there is one, looking at as
/// many of the next three characters as the text still has.
pub open spec fn token_at(s: Seq<char>, pos: int) -> Option<(SpecToken, u16)>
    recommends
        0 <= pos < s.len(),
{
    if pos + 2 < s.len() {
        three_char_token(s[pos], s[pos + 1], s[pos + 2])
    } else if pos + 1 < s.len() {
        two_char_token(s[pos], s[pos + 1])
    } else {
        single_char_token(s[pos])
    }
}

/// The identifier made of the characters `s[start..pos]`, or nothing where
/// that run is empty.
pub open spec fn pending_identifier(s: Seq<char>, start: int, pos: int) -> Seq<SpecToken> {
    if start < pos {
        seq![SpecToken::Identifier(s.subrange(start, pos))]
    } else {
        Seq::empty()
    }
}

/// The tokens of `s` from `pos` on, where the characters `s[start..pos]` have
/// been read and belong to an identifier that is still open.
pub open spec fn lex_from(s: Seq<char>, start: int, pos: int) -> Seq<SpecToken>
    decreases s.len() - pos,
{
    if start < 0 || pos < start {
        Seq::empty()
    } else if pos >= s.len() {
        pending_identifier(s, start, s.len() as int)
    } else {
        match token_at(s, pos) {
            Some((t, w)) => pending_identifier(s, start, pos).push(t) + lex_from(
                s,
                pos + w,
                pos + w,
            ),
            None => lex_from(s, start, pos + 1),
        }
    }
}

/// The token sequence of a source text: punctuation is matched longest
/// first, and every run of characters between two punctuation tokens is one
/// identifier.
pub open spec fn tokenize(s: Seq<char>) -> Seq<SpecToken> {
    lex_from(s, 0, 0)
}

/// The source text that a token stands for.
pub open spec fn token_text(t: SpecToken) -> Seq<char> {
    match t {
        SpecToken::AND => seq!['&', '&'],
        SpecToken::Add => seq!['+'],
        SpecToken::ArgTerm => seq![','],
        SpecToken::Assign => seq!['='],
        SpecToken::CodeEnd => seq!['\\'],
        SpecToken::CodeStart => seq!['/'],
        SpecToken::CommentEnd => seq!['*', '/'],
        SpecToken::CommentStart => seq!['/', '*'],
        SpecToken::END => seq!['e', 'n', 'd'],
        SpecToken::Eq => seq!['=', '='],
        SpecToken::FunStart => seq![':'],
        SpecToken::Identifier(name) => name,
        SpecToken::LeftB => seq!['['],
        SpecToken::LeftP => seq!['('],
        SpecToken::LeftW => seq!['{'],
        SpecToken::MUL => seq!['*'],
        SpecToken::NEQ => seq!['=', '/', '='],
        SpecToken::Pipe => seq!['|'],
        SpecToken::Qualify => seq![':', ':'],
        SpecToken::RightB => seq![']'],
        SpecToken::RightP => seq![')'],
        SpecToken::RightW => seq!['}'],
        SpecToken::SUB => seq!['-'],
    }
}

/// The source text that a token sequence stands for: the texts of its tokens,
/// one after the other.
pub open spec fn tokens_text(ts: Seq<SpecToken>) -> Seq<char>
    decreases ts.len(),
{
    if ts.len() == 0 {
        Seq::empty()
    } else {
        token_text(ts[0]) + tokens_text(ts.subrange(1, ts.len() as int))
    }
}

/// The punctuation token that one character spells, with its width.
pub fn single_char_to_token(a: char) -> (r: Option<(Token, u16)>)
    ensures
        r.deep_view() == single_char_token(a),
{
    let t = match a {
        '+' => Token::Add,
        '(' => Token::LeftP,
        ')' => Token::RightP,
        '[' => Token::LeftB,
        ']' => Token::RightB,
        '{' => Token::LeftW,
        '}' => Token::RightW,
        ',' => Token::ArgTerm,
        '|' => Token::Pipe,
        '/' => Token::CodeStart,
        '\\' => Token::CodeEnd,
        ':' => Token::FunStart,
        '*' => Token::MUL,
        '-' => Token::SUB,
        '=' => Token::Assign,
        _ => {
            return None;
        },
    };
    Some((t, 1))
}

/// The punctuation token that starts with two characters, with its width.
pub fn two_chars_to_token(a: char, b: char) -> (r: Option<(Token, u16)>)
    ensures
        r.deep_view() == two_char_token(a, b),
{
    let t = match (a, b) {
        ('/', '*') => Token::CommentStart,
        ('*', '/') => Token::CommentEnd,
        ('&', '&') => Token::AND,
        ('=', '=') => Token::Eq,
        (':', ':') => Token::Qualify,
        _ => {
            return single_char_to_token(a);
        },
    };
    Some((t, 2))
}

/// The punctuation token that starts with three characters, with its width.
pub fn tre_chars_to_token(a: char, b: char, c: char) -> (r: Option<(Token, u16)>)
    ensures
        r.deep_view() == three_char_token(a, b, c),
{
    match (a, b, c) {
        ('=', '/', '=') => Some((Token::NEQ, 3)),
        ('e', 'n', 'd') => Some((Token::END, 3)),
        _ => two_chars_to_token(a, b),
    }
}

/// The characters of a string, in order.
pub fn chars_of(s: &str) -> (r: Vec<char>)
    ensures
        r@ == s@,
{
    let mut v: Vec<char> = Vec::new();
    for c in it: s.chars()
        invariant
            v@ == it.seq().take(it.index() as int),
            it.seq() == s@,
    {
        v.push(c);
    }
    v
}

/// Turns a source text, from which all whitespace has been taken out, into
/// its tokens.
pub fn string_to(s: String) -> (r: Vec<Token>)
    ensures
        r.deep_view() == tokenize(s@),
{
    let text = chars_of(s.as_str());
    let mut ret: Vec<Token> = Vec::new();
    let mut start: usize = 0;
    let mut pos: usize = 0;
    while pos < text.len()
        invariant
            start <= pos <= text.len(),
            ret.deep_view() + lex_from(text@, start as int, pos as int) == tokenize(text@),
        decreases text.len() - pos,
    {
        let left = text.len() - pos;
        let found = if left > 2 {
            tre_chars_to_token(text[pos], text[pos + 1], text[pos + 2])
        } else if left > 1 {
            two_chars_to_token(text[pos], text[pos + 1])
        } else {
            single_char_to_token(text[pos])
        };
        assert(found.deep_view() == token_at(text@, pos as int));
        match found {
            Some((t, w)) => {
                let ghost before = ret.deep_view();
                let ghost tv = t@;
                if start < pos {
                    ret.push(Token::Identifier(copy_range(&text, start, pos)));
                }
                ret.push(t);
                assert(ret.deep_view() =~= before + pending_identifier(
                    text@,
                    start as int,
                    pos as int,
                ).push(tv));
                pos = pos + w as usize;
                start = pos;
            },
            None => {
                pos = pos + 1;
            },
        }
    }
    let ghost before = ret.deep_view();
    if start < pos {
        ret.push(Token::Identifier(copy_range(&text, start, pos)));
    }
    assert(ret.deep_view() =~= before + pending_identifier(text@, start as int, pos as int));
    ret
}

/// Tokenizing loses nothing: the texts of the tokens of `s`, put together,
/// are `s` again.
pub proof fn lemma_tokenize_round_trip(s: Seq<char>)
    ensures
        tokens_text(tokenize(s)) == s,
{
    lemma_lex_text(s, 0, 0);
    assert(s.subrange(0, s.len() as int) =~= s);
}

/// Whether no identifier of a token sequence is empty.
pub open spec fn identifiers_nonempty(ts: Seq<SpecToken>) -> bool {
    forall|i: int|
        0 <= i < ts.len() ==> (#[trigger] ts[i] matches SpecToken::Identifier(name) ==> name.len()
            > 0)
}

/// The tokenizer makes no empty identifier.
pub proof fn lemma_tokenize_identifiers(s: Seq<char>)
    ensures
        identifiers_nonempty(tokenize(s)),
{
    lemma_lex_identifiers(s, 0, 0);
}

proof fn lemma_lex_identifiers(s: Seq<char>, start: int, pos: int)
    requires
        0 <= start <= pos <= s.len(),
    ensures
        identifiers_nonempty(lex_from(s, start, pos)),
    decreases s.len() - pos,
{
    if pos < s.len() {
        match token_at(s, pos) {
            Some((t, w)) => {
                lemma_token_at_text(s, pos);
                lemma_lex_identifiers(s, pos + w, pos + w);
                let front = pending_identifier(s, start, pos).push(t);
                let rest = lex_from(s, pos + w, pos + w);
                assert(!(t is Identifier));
                assert forall|i: int| 0 <= i < (front + rest).len() implies (#[trigger] (front
                    + rest)[i] matches SpecToken::Identifier(name) ==> name.len() > 0) by {
                    if i >= front.len() {
                        assert((front + rest)[i] == rest[i - front.len()]);
                    }
                }
            },
            None => {
                lemma_lex_identifiers(s, start, pos + 1);
            },
        }
    }
}

/// The text of a concatenation is the concatenation of the texts.
pub proof fn lemma_tokens_text_concat(a: Seq<SpecToken>, b: Seq<SpecToken>)
    ensures
        tokens_text(a + b) == tokens_text(a) + tokens_text(b),
    decreases a.len(),
{
    if a.len() == 0 {
        assert(a + b =~= b);
        assert(tokens_text(a) + tokens_text(b) =~= tokens_text(b));
    } else {
        let rest = a.subrange(1, a.len() as int);
        assert((a + b).subrange(1, (a + b).len() as int) =~= rest + b);
        lemma_tokens_text_concat(rest, b);
        assert(tokens_text(a + b) =~= tokens_text(a) + tokens_text(b));
    }
}

proof fn lemma_tokens_text_one(t: SpecToken)
    ensures
        tokens_text(seq![t]) == token_text(t),
{
    let one = seq![t];
    assert(one.subrange(1, one.len() as int) =~= Seq::<SpecToken>::empty());
    assert(tokens_text(Seq::<SpecToken>::empty()) =~= Seq::<char>::empty());
    assert(tokens_text(one) =~= token_text(t));
}

proof fn lemma_token_at_text(s: Seq<char>, pos: int)
    requires
        0 <= pos < s.len(),
        token_at(s, pos) is Some,
    ensures
        token_at(s, pos) matches Some((t, w)) && 1 <= w <= 3 && pos + w <= s.len() && token_text(t)
            == s.subrange(pos, pos + w),
{
    let (t, w) = token_at(s, pos)->0;
    assert(token_text(t) =~= s.subrange(pos, pos + w));
}

proof fn lemma_pending_text(s: Seq<char>, start: int, pos: int)
    requires
        0 <= start <= pos <= s.len(),
    ensures
        tokens_text(pending_identifier(s, start, pos)) == s.subrange(start, pos),
{
    if start < pos {
        lemma_tokens_text_one(SpecToken::Identifier(s.subrange(start, pos)));
    } else {
        assert(s.subrange(start, pos) =~= Seq::<char>::empty());
    }
}

proof fn lemma_lex_text(s: Seq<char>, start: int, pos: int)
    requires
        0 <= start <= pos <= s.len(),
    ensures
        tokens_text(lex_from(s, start, pos)) == s.subrange(start, s.len() as int),
    decreases s.len() - pos,
{
    if pos >= s.len() {
        lemma_pending_text(s, start, pos);
    } else {
        match token_at(s, pos) {
            Some((t, w)) => {
                lemma_token_at_text(s, pos);
                lemma_lex_text(s, pos + w, pos + w);
                lemma_pending_text(s, start, pos);
                let p = pending_identifier(s, start, pos);
                let one = seq![t];
                assert(p.push(t) =~= p + one);
                lemma_tokens_text_one(t);
                lemma_tokens_text_concat(p, one);
                lemma_tokens_text_concat(p + one, lex_from(s, pos + w, pos + w));
                assert(s.subrange(start, pos) + s.subrange(pos, pos + w) + s.subrange(
                    pos + w,
                    s.len() as int,
                ) =~= s.subrange(start, s.len() as int));
            },
            None => {
                lemma_lex_text(s, start, pos + 1);
            },
        }
    }
}

} // verus!
