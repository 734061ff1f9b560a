use vstd::prelude::*;

verus! {

/// The lexical tokens of the language: keywords, literal keywords,
/// identifiers, numbers, strings and punctuators.
#[derive(Debug, PartialEq, Eq, Clone, Copy, Structural)]
pub enum Token {
    Break,
    Case,
    Catch,
    Class,
    Const,
    Continue,
    Debugger,
    Default,
    Delete,
    Do,
    Else,
    Export,
    Extends,
    Finally,
    For,
    Function,
    If,
    Import,
    In,
    Instanceof,
    New,
    Return,
    Super,
    Switch,
    This,
    Throw,
    Try,
    Typeof,
    Var,
    Void,
    While,
    With,
    Yield,
    Implements,
    Interface,
    Let,
    Package,
    Private,
    Protected,
    Public,
    Static,
    Async,
    Await,
    Undefined,
    Null,
    True,
    False,
    Number,
    String,
    Identifier,
    Plus,
    Subtract,
    Multiply,
    Slash,
    Remainder,
    And,
    Or,
    ExclusiveOr,
    ShiftLeft,
    ShiftRight,
    UnsignedShiftRight,
    AndNot,
    AddAssign,
    SubtractAssign,
    MultiplyAssign,
    SlashAssign,
    RemainderAssign,
    AndAssign,
    OrAssign,
    ExclusiveOrAssign,
    ShiftLeftAssign,
    ShiftRightAssign,
    UnsignedShiftRightAssign,
    AndNotAssign,
    LogicalAnd,
    LogicalAndAssign,
    LogicalOr,
    LogicalOrAssign,
    Increment,
    Decrement,
    Equal,
    StrictEqual,
    Less,
    Greater,
    Assign,
    Not,
    BitwiseNot,
    NotEqual,
    StrictNotEqual,
    LessOrEqual,
    GreaterOrEqual,
    LeftParenthesis,
    LeftBracket,
    LeftBrace,
    Comma,
    Period,
    RightParenthesis,
    RightBracket,
    RightBrace,
    Semicolon,
    Colon,
    QuestionMark,
    Backtick,
    Exponentiation,
    ExponentiationAssign,
    NullishCoalescing,
    NullishCoalescingAssign,
    OptionalChaining,
    ILLEGAL,
    EOF,
}

/// The keyword token a word stands for, or `ILLEGAL` when it is none.
/// The future reserved words (`let`, `static`, ...) count only in strict mode.
pub open spec fn keyword_token(s: Seq<char>, is_strict: bool) -> Token {
    if s == "break"@ { Token::Break } else
    if s == "case"@ { Token::Case } else
    if s == "catch"@ { Token::Catch } else
    if s == "class"@ { Token::Class } else
    if s == "const"@ { Token::Const } else
    if s == "continue"@ { Token::Continue } else
    if s == "debugger"@ { Token::Debugger } else
    if s == "default"@ { Token::Default } else
    if s == "delete"@ { Token::Delete } else
    if s == "do"@ { Token::Do } else
    if s == "else"@ { Token::Else } else
    if s == "export"@ { Token::Export } else
    if s == "extends"@ { Token::Extends } else
    if s == "finally"@ { Token::Finally } else
    if s == "for"@ { Token::For } else
    if s == "function"@ { Token::Function } else
    if s == "if"@ { Token::If } else
    if s == "import"@ { Token::Import } else
    if s == "in"@ { Token::In } else
    if s == "instanceof"@ { Token::Instanceof } else
    if s == "new"@ { Token::New } else
    if s == "return"@ { Token::Return } else
    if s == "super"@ { Token::Super } else
    if s == "switch"@ { Token::Switch } else
    if s == "this"@ { Token::This } else
    if s == "throw"@ { Token::Throw } else
    if s == "try"@ { Token::Try } else
    if s == "typeof"@ { Token::Typeof } else
    if s == "var"@ { Token::Var } else
    if s == "void"@ { Token::Void } else
    if s == "while"@ { Token::While } else
    if s == "with"@ { Token::With } else
    if s == "yield"@ { Token::Yield } else
    if s == "async"@ { Token::Async } else
    if s == "await"@ { Token::Await } else
    if !is_strict { Token::ILLEGAL } else
    if s == "implements"@ { Token::Implements } else
    if s == "interface"@ { Token::Interface } else
    if s == "let"@ { Token::Let } else
    if s == "package"@ { Token::Package } else
    if s == "private"@ { Token::Private } else
    if s == "protected"@ { Token::Protected } else
    if s == "public"@ { Token::Public } else
    if s == "static"@ { Token::Static } else
    { Token::ILLEGAL }
}

/// The token of the words `null`, `undefined`, `true` and `false`; `ILLEGAL`
/// for any other word.
pub open spec fn literal_token(s: Seq<char>) -> Token {
    if s == "null"@ { Token::Null }
    else if s == "undefined"@ { Token::Undefined }
    else if s == "true"@ { Token::True }
    else if s == "false"@ { Token::False }
    else { Token::ILLEGAL }
}

fn is_word(literal: &String, word: &str) -> (r: bool)
    ensures
        r == (literal@ == word@),
{
    *literal == String::from_str(word)
}

/// Looks a word up among the keywords (see `keyword_token`).
pub fn get_token_keyword(literal: &String, is_strict: bool) -> (r: Token)
    ensures
        r == keyword_token(literal@, is_strict),
{
    if is_word(literal, "break") { return Token::Break; }
    if is_word(literal, "case") { return Token::Case; }
    if is_word(literal, "catch") { return Token::Catch; }
    if is_word(literal, "class") { return Token::Class; }
    if is_word(literal, "const") { return Token::Const; }
    if is_word(literal, "continue") { return Token::Continue; }
    if is_word(literal, "debugger") { return Token::Debugger; }
    if is_word(literal, "default") { return Token::Default; }
    if is_word(literal, "delete") { return Token::Delete; }
    if is_word(literal, "do") { return Token::Do; }
    if is_word(literal, "else") { return Token::Else; }
    if is_word(literal, "export") { return Token::Export; }
    if is_word(literal, "extends") { return Token::Extends; }
    if is_word(literal, "finally") { return Token::Finally; }
    if is_word(literal, "for") { return Token::For; }
    if is_word(literal, "function") { return Token::Function; }
    if is_word(literal, "if") { return Token::If; }
    if is_word(literal, "import") { return Token::Import; }
    if is_word(literal, "in") { return Token::In; }
    if is_word(literal, "instanceof") { return Token::Instanceof; }
    if is_word(literal, "new") { return Token::New; }
    if is_word(literal, "return") { return Token::Return; }
    if is_word(literal, "super") { return Token::Super; }
    if is_word(literal, "switch") { return Token::Switch; }
    if is_word(literal, "this") { return Token::This; }
    if is_word(literal, "throw") { return Token::Throw; }
    if is_word(literal, "try") { return Token::Try; }
    if is_word(literal, "typeof") { return Token::Typeof; }
    if is_word(literal, "var") { return Token::Var; }
    if is_word(literal, "void") { return Token::Void; }
    if is_word(literal, "while") { return Token::While; }
    if is_word(literal, "with") { return Token::With; }
    if is_word(literal, "yield") { return Token::Yield; }
    if is_word(literal, "async") { return Token::Async; }
    if is_word(literal, "await") { return Token::Await; }
    if !is_strict { return Token::ILLEGAL; }
    if is_word(literal, "implements") { return Token::Implements; }
    if is_word(literal, "interface") { return Token::Interface; }
    if is_word(literal, "let") { return Token::Let; }
    if is_word(literal, "package") { return Token::Package; }
    if is_word(literal, "private") { return Token::Private; }
    if is_word(literal, "protected") { return Token::Protected; }
    if is_word(literal, "public") { return Token::Public; }
    if is_word(literal, "static") { return Token::Static; }
    Token::ILLEGAL
}

/// Looks a word up among the literal keywords (see `literal_token`).
pub fn get_token_literal(literal: &String) -> (r: Token)
    ensures
        r == literal_token(literal@),
{
    if is_word(literal, "null") { return Token::Null; }
    if is_word(literal, "undefined") { return Token::Undefined; }
    if is_word(literal, "true") { return Token::True; }
    if is_word(literal, "false") { return Token::False; }
    Token::ILLEGAL
}

/// The source text of the unary operators, as the interpreter prints them.
pub open spec fn token_text(t: Token) -> Seq<char> {
    match t {
        Token::Await => "await"@,
        Token::BitwiseNot => "~"@,
        Token::Decrement => "--"@,
        Token::Delete => "delete"@,
        Token::Increment => "++"@,
        Token::Not => "!"@,
        Token::Plus => "+"@,
        Token::Subtract => "-"@,
        Token::Typeof => "typeof"@,
        Token::Void => "void"@,
        _ => "unsupported to_string token"@,
    }
}

impl Token {
    /// The text of a unary operator token (see `token_text`).
    pub fn to_string(&self) -> (r: String)
        ensures
            r@ == token_text(*self),
    {
        match self {
            Token::Await => String::from_str("await"),
            Token::BitwiseNot => String::from_str("~"),
            Token::Decrement => String::from_str("--"),
            Token::Delete => String::from_str("delete"),
            Token::Increment => String::from_str("++"),
            Token::Not => String::from_str("!"),
            Token::Plus => String::from_str("+"),
            Token::Subtract => String::from_str("-"),
            Token::Typeof => String::from_str("typeof"),
            Token::Void => String::from_str("void"),
            _ => String::from_str("unsupported to_string token"),
        }
    }
}


/// A word written in lower case: each ASCII capital letter of `s` becomes
/// its small letter.
pub open spec fn lower_ascii(s: Seq<char>) -> Seq<char> {
    Seq::new(s.len(), |i: int| if 'A' <= s[i] && s[i] <= 'Z' { (s[i] as int + 32) as char } else { s[i] })
}

/// The reserved words of the language, in every mode.
pub open spec fn is_reserved_word_token(t: Token) -> bool {
    t == Token::Break || t == Token::Case || t == Token::Catch || t == Token::Class || t == Token::Const || t == Token::Continue || t == Token::Debugger || t == Token::Default || t == Token::Delete || t == Token::Do || t == Token::Else || t == Token::Export || t == Token::Extends || t == Token::Finally || t == Token::For || t == Token::Function || t == Token::If || t == Token::Import || t == Token::In || t == Token::Instanceof || t == Token::New || t == Token::Return || t == Token::Super || t == Token::Switch || t == Token::This || t == Token::Throw || t == Token::Try || t == Token::Typeof || t == Token::Var || t == Token::Void || t == Token::While || t == Token::With || t == Token::Yield || t == Token::Async || t == Token::Await
}

/// The words reserved in strict mode only.
pub open spec fn is_strict_reserved_word_token(t: Token) -> bool {
    t == Token::Implements || t == Token::Interface || t == Token::Let || t == Token::Package || t == Token::Private || t == Token::Protected || t == Token::Public || t == Token::Static
}

/// Each reserved word, written as the name of its token in lower case
/// (`this` for `This`), is looked up as that token: in every mode for the
/// reserved words, in strict mode for the strict ones.
pub proof fn lemma_reserved_words(t: Token)
    ensures
        is_reserved_word_token(t) ==> keyword_token(lower_ascii(token_name(t)), true) == t
            && keyword_token(lower_ascii(token_name(t)), false) == t,
        is_strict_reserved_word_token(t) ==> keyword_token(lower_ascii(token_name(t)), true) == t,
{
    reveal_strlit("Break");
    reveal_strlit("Case");
    reveal_strlit("Catch");
    reveal_strlit("Class");
    reveal_strlit("Const");
    reveal_strlit("Continue");
    reveal_strlit("Debugger");
    reveal_strlit("Default");
    reveal_strlit("Delete");
    reveal_strlit("Do");
    reveal_strlit("Else");
    reveal_strlit("Export");
    reveal_strlit("Extends");
    reveal_strlit("Finally");
    reveal_strlit("For");
    reveal_strlit("Function");
    reveal_strlit("If");
    reveal_strlit("Import");
    reveal_strlit("In");
    reveal_strlit("Instanceof");
    reveal_strlit("New");
    reveal_strlit("Return");
    reveal_strlit("Super");
    reveal_strlit("Switch");
    reveal_strlit("This");
    reveal_strlit("Throw");
    reveal_strlit("Try");
    reveal_strlit("Typeof");
    reveal_strlit("Var");
    reveal_strlit("Void");
    reveal_strlit("While");
    reveal_strlit("With");
    reveal_strlit("Yield");
    reveal_strlit("Async");
    reveal_strlit("Await");
    reveal_strlit("Implements");
    reveal_strlit("Interface");
    reveal_strlit("Let");
    reveal_strlit("Package");
    reveal_strlit("Private");
    reveal_strlit("Protected");
    reveal_strlit("Public");
    reveal_strlit("Static");
    reveal_strlit("break");
    reveal_strlit("case");
    reveal_strlit("catch");
    reveal_strlit("class");
    reveal_strlit("const");
    reveal_strlit("continue");
    reveal_strlit("debugger");
    reveal_strlit("default");
    reveal_strlit("delete");
    reveal_strlit("do");
    reveal_strlit("else");
    reveal_strlit("export");
    reveal_strlit("extends");
    reveal_strlit("finally");
    reveal_strlit("for");
    reveal_strlit("function");
    reveal_strlit("if");
    reveal_strlit("import");
    reveal_strlit("in");
    reveal_strlit("instanceof");
    reveal_strlit("new");
    reveal_strlit("return");
    reveal_strlit("super");
    reveal_strlit("switch");
    reveal_strlit("this");
    reveal_strlit("throw");
    reveal_strlit("try");
    reveal_strlit("typeof");
    reveal_strlit("var");
    reveal_strlit("void");
    reveal_strlit("while");
    reveal_strlit("with");
    reveal_strlit("yield");
    reveal_strlit("async");
    reveal_strlit("await");
    reveal_strlit("implements");
    reveal_strlit("interface");
    reveal_strlit("let");
    reveal_strlit("package");
    reveal_strlit("private");
    reveal_strlit("protected");
    reveal_strlit("public");
    reveal_strlit("static");
    match t {
        Token::Break => {
            assert(token_name(t) == "Break"@);
            assert(lower_ascii("Break"@) =~= "break"@);
            assert(keyword_token("break"@, true) == Token::Break);
        },
        Token::Case => {
            assert(token_name(t) == "Case"@);
            assert(lower_ascii("Case"@) =~= "case"@);
            assert(keyword_token("case"@, true) == Token::Case);
        },
        Token::Catch => {
            assert(token_name(t) == "Catch"@);
            assert(lower_ascii("Catch"@) =~= "catch"@);
            assert("catch"@[0] != "break"@[0]);
            assert(keyword_token("catch"@, true) == Token::Catch);
        },
        Token::Class => {
            assert(token_name(t) == "Class"@);
            assert(lower_ascii("Class"@) =~= "class"@);
            assert("class"@[0] != "break"@[0]);
            assert("class"@[1] != "catch"@[1]);
            assert(keyword_token("class"@, true) == Token::Class);
        },
        Token::Const => {
            assert(token_name(t) == "Const"@);
            assert(lower_ascii("Const"@) =~= "const"@);
            assert("const"@[0] != "break"@[0]);
            assert("const"@[1] != "catch"@[1]);
            assert("const"@[1] != "class"@[1]);
            assert(keyword_token("const"@, true) == Token::Const);
        },
        Token::Continue => {
            assert(token_name(t) == "Continue"@);
            assert(lower_ascii("Continue"@) =~= "continue"@);
            assert(keyword_token("continue"@, true) == Token::Continue);
        },
        Token::Debugger => {
            assert(token_name(t) == "Debugger"@);
            assert(lower_ascii("Debugger"@) =~= "debugger"@);
            assert("debugger"@[0] != "continue"@[0]);
            assert(keyword_token("debugger"@, true) == Token::Debugger);
        },
        Token::Default => {
            assert(token_name(t) == "Default"@);
            assert(lower_ascii("Default"@) =~= "default"@);
            assert(keyword_token("default"@, true) == Token::Default);
        },
        Token::Delete => {
            assert(token_name(t) == "Delete"@);
            assert(lower_ascii("Delete"@) =~= "delete"@);
            assert(keyword_token("delete"@, true) == Token::Delete);
        },
        Token::Do => {
            assert(token_name(t) == "Do"@);
            assert(lower_ascii("Do"@) =~= "do"@);
            assert(keyword_token("do"@, true) == Token::Do);
        },
        Token::Else => {
            assert(token_name(t) == "Else"@);
            assert(lower_ascii("Else"@) =~= "else"@);
            assert("else"@[0] != "case"@[0]);
            assert(keyword_token("else"@, true) == Token::Else);
        },
        Token::Export => {
            assert(token_name(t) == "Export"@);
            assert(lower_ascii("Export"@) =~= "export"@);
            assert("export"@[0] != "delete"@[0]);
            assert(keyword_token("export"@, true) == Token::Export);
        },
        Token::Extends => {
            assert(token_name(t) == "Extends"@);
            assert(lower_ascii("Extends"@) =~= "extends"@);
            assert("extends"@[0] != "default"@[0]);
            assert(keyword_token("extends"@, true) == Token::Extends);
        },
        Token::Finally => {
            assert(token_name(t) == "Finally"@);
            assert(lower_ascii("Finally"@) =~= "finally"@);
            assert("finally"@[0] != "default"@[0]);
            assert("finally"@[0] != "extends"@[0]);
            assert(keyword_token("finally"@, true) == Token::Finally);
        },
        Token::For => {
            assert(token_name(t) == "For"@);
            assert(lower_ascii("For"@) =~= "for"@);
            assert(keyword_token("for"@, true) == Token::For);
        },
        Token::Function => {
            assert(token_name(t) == "Function"@);
            assert(lower_ascii("Function"@) =~= "function"@);
            assert("function"@[0] != "continue"@[0]);
            assert("function"@[0] != "debugger"@[0]);
            assert(keyword_token("function"@, true) == Token::Function);
        },
        Token::If => {
            assert(token_name(t) == "If"@);
            assert(lower_ascii("If"@) =~= "if"@);
            assert("if"@[0] != "do"@[0]);
            assert(keyword_token("if"@, true) == Token::If);
        },
        Token::Import => {
            assert(token_name(t) == "Import"@);
            assert(lower_ascii("Import"@) =~= "import"@);
            assert("import"@[0] != "delete"@[0]);
            assert("import"@[0] != "export"@[0]);
            assert(keyword_token("import"@, true) == Token::Import);
        },
        Token::In => {
            assert(token_name(t) == "In"@);
            assert(lower_ascii("In"@) =~= "in"@);
            assert("in"@[0] != "do"@[0]);
            assert("in"@[1] != "if"@[1]);
            assert(keyword_token("in"@, true) == Token::In);
        },
        Token::Instanceof => {
            assert(token_name(t) == "Instanceof"@);
            assert(lower_ascii("Instanceof"@) =~= "instanceof"@);
            assert(keyword_token("instanceof"@, true) == Token::Instanceof);
        },
        Token::New => {
            assert(token_name(t) == "New"@);
            assert(lower_ascii("New"@) =~= "new"@);
            assert("new"@[0] != "for"@[0]);
            assert(keyword_token("new"@, true) == Token::New);
        },
        Token::Return => {
            assert(token_name(t) == "Return"@);
            assert(lower_ascii("Return"@) =~= "return"@);
            assert("return"@[0] != "delete"@[0]);
            assert("return"@[0] != "export"@[0]);
            assert("return"@[0] != "import"@[0]);
            assert(keyword_token("return"@, true) == Token::Return);
        },
        Token::Super => {
            assert(token_name(t) == "Super"@);
            assert(lower_ascii("Super"@) =~= "super"@);
            assert("super"@[0] != "break"@[0]);
            assert("super"@[0] != "catch"@[0]);
            assert("super"@[0] != "class"@[0]);
            assert("super"@[0] != "const"@[0]);
            assert(keyword_token("super"@, true) == Token::Super);
        },
        Token::Switch => {
            assert(token_name(t) == "Switch"@);
            assert(lower_ascii("Switch"@) =~= "switch"@);
            assert("switch"@[0] != "delete"@[0]);
            assert("switch"@[0] != "export"@[0]);
            assert("switch"@[0] != "import"@[0]);
            assert("switch"@[0] != "return"@[0]);
            assert(keyword_token("switch"@, true) == Token::Switch);
        },
        Token::This => {
            assert(token_name(t) == "This"@);
            assert(lower_ascii("This"@) =~= "this"@);
            assert("this"@[0] != "case"@[0]);
            assert("this"@[0] != "else"@[0]);
            assert(keyword_token("this"@, true) == Token::This);
        },
        Token::Throw => {
            assert(token_name(t) == "Throw"@);
            assert(lower_ascii("Throw"@) =~= "throw"@);
            assert("throw"@[0] != "break"@[0]);
            assert("throw"@[0] != "catch"@[0]);
            assert("throw"@[0] != "class"@[0]);
            assert("throw"@[0] != "const"@[0]);
            assert("throw"@[0] != "super"@[0]);
            assert(keyword_token("throw"@, true) == Token::Throw);
        },
        Token::Try => {
            assert(token_name(t) == "Try"@);
            assert(lower_ascii("Try"@) =~= "try"@);
            assert("try"@[0] != "for"@[0]);
            assert("try"@[0] != "new"@[0]);
            assert(keyword_token("try"@, true) == Token::Try);
        },
        Token::Typeof => {
            assert(token_name(t) == "Typeof"@);
            assert(lower_ascii("Typeof"@) =~= "typeof"@);
            assert("typeof"@[0] != "delete"@[0]);
            assert("typeof"@[0] != "export"@[0]);
            assert("typeof"@[0] != "import"@[0]);
            assert("typeof"@[0] != "return"@[0]);
            assert("typeof"@[0] != "switch"@[0]);
            assert(keyword_token("typeof"@, true) == Token::Typeof);
        },
        Token::Var => {
            assert(token_name(t) == "Var"@);
            assert(lower_ascii("Var"@) =~= "var"@);
            assert("var"@[0] != "for"@[0]);
            assert("var"@[0] != "new"@[0]);
            assert("var"@[0] != "try"@[0]);
            assert(keyword_token("var"@, true) == Token::Var);
        },
        Token::Void => {
            assert(token_name(t) == "Void"@);
            assert(lower_ascii("Void"@) =~= "void"@);
            assert("void"@[0] != "case"@[0]);
            assert("void"@[0] != "else"@[0]);
            assert("void"@[0] != "this"@[0]);
            assert(keyword_token("void"@, true) == Token::Void);
        },
        Token::While => {
            assert(token_name(t) == "While"@);
            assert(lower_ascii("While"@) =~= "while"@);
            assert("while"@[0] != "break"@[0]);
            assert("while"@[0] != "catch"@[0]);
            assert("while"@[0] != "class"@[0]);
            assert("while"@[0] != "const"@[0]);
            assert("while"@[0] != "super"@[0]);
            assert("while"@[0] != "throw"@[0]);
            assert(keyword_token("while"@, true) == Token::While);
        },
        Token::With => {
            assert(token_name(t) == "With"@);
            assert(lower_ascii("With"@) =~= "with"@);
            assert("with"@[0] != "case"@[0]);
            assert("with"@[0] != "else"@[0]);
            assert("with"@[0] != "this"@[0]);
            assert("with"@[0] != "void"@[0]);
            assert(keyword_token("with"@, true) == Token::With);
        },
        Token::Yield => {
            assert(token_name(t) == "Yield"@);
            assert(lower_ascii("Yield"@) =~= "yield"@);
            assert("yield"@[0] != "break"@[0]);
            assert("yield"@[0] != "catch"@[0]);
            assert("yield"@[0] != "class"@[0]);
            assert("yield"@[0] != "const"@[0]);
            assert("yield"@[0] != "super"@[0]);
            assert("yield"@[0] != "throw"@[0]);
            assert("yield"@[0] != "while"@[0]);
            assert(keyword_token("yield"@, true) == Token::Yield);
        },
        Token::Async => {
            assert(token_name(t) == "Async"@);
            assert(lower_ascii("Async"@) =~= "async"@);
            assert("async"@[0] != "break"@[0]);
            assert("async"@[0] != "catch"@[0]);
            assert("async"@[0] != "class"@[0]);
            assert("async"@[0] != "const"@[0]);
            assert("async"@[0] != "super"@[0]);
            assert("async"@[0] != "throw"@[0]);
            assert("async"@[0] != "while"@[0]);
            assert("async"@[0] != "yield"@[0]);
            assert(keyword_token("async"@, true) == Token::Async);
        },
        Token::Await => {
            assert(token_name(t) == "Await"@);
            assert(lower_ascii("Await"@) =~= "await"@);
            assert("await"@[0] != "break"@[0]);
            assert("await"@[0] != "catch"@[0]);
            assert("await"@[0] != "class"@[0]);
            assert("await"@[0] != "const"@[0]);
            assert("await"@[0] != "super"@[0]);
            assert("await"@[0] != "throw"@[0]);
            assert("await"@[0] != "while"@[0]);
            assert("await"@[0] != "yield"@[0]);
            assert("await"@[1] != "async"@[1]);
            assert(keyword_token("await"@, true) == Token::Await);
        },
        Token::Implements => {
            assert(token_name(t) == "Implements"@);
            assert(lower_ascii("Implements"@) =~= "implements"@);
            assert("implements"@[1] != "instanceof"@[1]);
            assert(keyword_token("implements"@, true) == Token::Implements);
        },
        Token::Interface => {
            assert(token_name(t) == "Interface"@);
            assert(lower_ascii("Interface"@) =~= "interface"@);
            assert(keyword_token("interface"@, true) == Token::Interface);
        },
        Token::Let => {
            assert(token_name(t) == "Let"@);
            assert(lower_ascii("Let"@) =~= "let"@);
            assert("let"@[0] != "for"@[0]);
            assert("let"@[0] != "new"@[0]);
            assert("let"@[0] != "try"@[0]);
            assert("let"@[0] != "var"@[0]);
            assert(keyword_token("let"@, true) == Token::Let);
        },
        Token::Package => {
            assert(token_name(t) == "Package"@);
            assert(lower_ascii("Package"@) =~= "package"@);
            assert("package"@[0] != "default"@[0]);
            assert("package"@[0] != "extends"@[0]);
            assert("package"@[0] != "finally"@[0]);
            assert(keyword_token("package"@, true) == Token::Package);
        },
        Token::Private => {
            assert(token_name(t) == "Private"@);
            assert(lower_ascii("Private"@) =~= "private"@);
            assert("private"@[0] != "default"@[0]);
            assert("private"@[0] != "extends"@[0]);
            assert("private"@[0] != "finally"@[0]);
            assert("private"@[1] != "package"@[1]);
            assert(keyword_token("private"@, true) == Token::Private);
        },
        Token::Protected => {
            assert(token_name(t) == "Protected"@);
            assert(lower_ascii("Protected"@) =~= "protected"@);
            assert("protected"@[0] != "interface"@[0]);
            assert(keyword_token("protected"@, true) == Token::Protected);
        },
        Token::Public => {
            assert(token_name(t) == "Public"@);
            assert(lower_ascii("Public"@) =~= "public"@);
            assert("public"@[0] != "delete"@[0]);
            assert("public"@[0] != "export"@[0]);
            assert("public"@[0] != "import"@[0]);
            assert("public"@[0] != "return"@[0]);
            assert("public"@[0] != "switch"@[0]);
            assert("public"@[0] != "typeof"@[0]);
            assert(keyword_token("public"@, true) == Token::Public);
        },
        Token::Static => {
            assert(token_name(t) == "Static"@);
            assert(lower_ascii("Static"@) =~= "static"@);
            assert("static"@[0] != "delete"@[0]);
            assert("static"@[0] != "export"@[0]);
            assert("static"@[0] != "import"@[0]);
            assert("static"@[0] != "return"@[0]);
            assert("static"@[1] != "switch"@[1]);
            assert("static"@[0] != "typeof"@[0]);
            assert("static"@[0] != "public"@[0]);
            assert(keyword_token("static"@, true) == Token::Static);
        },
        _ => {},
    }
}

/// The name of a token's variant, as its derived `Debug` prints it.
pub open spec fn token_name(t: Token) -> Seq<char> {
    match t {
        Token::Break => "Break"@,
        Token::Case => "Case"@,
        Token::Catch => "Catch"@,
        Token::Class => "Class"@,
        Token::Const => "Const"@,
        Token::Continue => "Continue"@,
        Token::Debugger => "Debugger"@,
        Token::Default => "Default"@,
        Token::Delete => "Delete"@,
        Token::Do => "Do"@,
        Token::Else => "Else"@,
        Token::Export => "Export"@,
        Token::Extends => "Extends"@,
        Token::Finally => "Finally"@,
        Token::For => "For"@,
        Token::Function => "Function"@,
        Token::If => "If"@,
        Token::Import => "Import"@,
        Token::In => "In"@,
        Token::Instanceof => "Instanceof"@,
        Token::New => "New"@,
        Token::Return => "Return"@,
        Token::Super => "Super"@,
        Token::Switch => "Switch"@,
        Token::This => "This"@,
        Token::Throw => "Throw"@,
        Token::Try => "Try"@,
        Token::Typeof => "Typeof"@,
        Token::Var => "Var"@,
        Token::Void => "Void"@,
        Token::While => "While"@,
        Token::With => "With"@,
        Token::Yield => "Yield"@,
        Token::Implements => "Implements"@,
        Token::Interface => "Interface"@,
        Token::Let => "Let"@,
        Token::Package => "Package"@,
        Token::Private => "Private"@,
        Token::Protected => "Protected"@,
        Token::Public => "Public"@,
        Token::Static => "Static"@,
        Token::Async => "Async"@,
        Token::Await => "Await"@,
        Token::Undefined => "Undefined"@,
        Token::Null => "Null"@,
        Token::True => "True"@,
        Token::False => "False"@,
        Token::Number => "Number"@,
        Token::String => "String"@,
        Token::Identifier => "Identifier"@,
        Token::Plus => "Plus"@,
        Token::Subtract => "Subtract"@,
        Token::Multiply => "Multiply"@,
        Token::Slash => "Slash"@,
        Token::Remainder => "Remainder"@,
        Token::And => "And"@,
        Token::Or => "Or"@,
        Token::ExclusiveOr => "ExclusiveOr"@,
        Token::ShiftLeft => "ShiftLeft"@,
        Token::ShiftRight => "ShiftRight"@,
        Token::UnsignedShiftRight => "UnsignedShiftRight"@,
        Token::AndNot => "AndNot"@,
        Token::AddAssign => "AddAssign"@,
        Token::SubtractAssign => "SubtractAssign"@,
        Token::MultiplyAssign => "MultiplyAssign"@,
        Token::SlashAssign => "SlashAssign"@,
        Token::RemainderAssign => "RemainderAssign"@,
        Token::AndAssign => "AndAssign"@,
        Token::OrAssign => "OrAssign"@,
        Token::ExclusiveOrAssign => "ExclusiveOrAssign"@,
        Token::ShiftLeftAssign => "ShiftLeftAssign"@,
        Token::ShiftRightAssign => "ShiftRightAssign"@,
        Token::UnsignedShiftRightAssign => "UnsignedShiftRightAssign"@,
        Token::AndNotAssign => "AndNotAssign"@,
        Token::LogicalAnd => "LogicalAnd"@,
        Token::LogicalAndAssign => "LogicalAndAssign"@,
        Token::LogicalOr => "LogicalOr"@,
        Token::LogicalOrAssign => "LogicalOrAssign"@,
        Token::Increment => "Increment"@,
        Token::Decrement => "Decrement"@,
        Token::Equal => "Equal"@,
        Token::StrictEqual => "StrictEqual"@,
        Token::Less => "Less"@,
        Token::Greater => "Greater"@,
        Token::Assign => "Assign"@,
        Token::Not => "Not"@,
        Token::BitwiseNot => "BitwiseNot"@,
        Token::NotEqual => "NotEqual"@,
        Token::StrictNotEqual => "StrictNotEqual"@,
        Token::LessOrEqual => "LessOrEqual"@,
        Token::GreaterOrEqual => "GreaterOrEqual"@,
        Token::LeftParenthesis => "LeftParenthesis"@,
        Token::LeftBracket => "LeftBracket"@,
        Token::LeftBrace => "LeftBrace"@,
        Token::Comma => "Comma"@,
        Token::Period => "Period"@,
        Token::RightParenthesis => "RightParenthesis"@,
        Token::RightBracket => "RightBracket"@,
        Token::RightBrace => "RightBrace"@,
        Token::Semicolon => "Semicolon"@,
        Token::Colon => "Colon"@,
        Token::QuestionMark => "QuestionMark"@,
        Token::Backtick => "Backtick"@,
        Token::Exponentiation => "Exponentiation"@,
        Token::ExponentiationAssign => "ExponentiationAssign"@,
        Token::NullishCoalescing => "NullishCoalescing"@,
        Token::NullishCoalescingAssign => "NullishCoalescingAssign"@,
        Token::OptionalChaining => "OptionalChaining"@,
        Token::ILLEGAL => "ILLEGAL"@,
        Token::EOF => "EOF"@,
    }
}

impl Token {
    /// The name of the token's variant (see `token_name`).
    pub fn name(&self) -> (r: String)
        ensures
            r@ == token_name(*self),
    {
        match self {
            Token::Break => String::from_str("Break"),
            Token::Case => String::from_str("Case"),
            Token::Catch => String::from_str("Catch"),
            Token::Class => String::from_str("Class"),
            Token::Const => String::from_str("Const"),
            Token::Continue => String::from_str("Continue"),
            Token::Debugger => String::from_str("Debugger"),
            Token::Default => String::from_str("Default"),
            Token::Delete => String::from_str("Delete"),
            Token::Do => String::from_str("Do"),
            Token::Else => String::from_str("Else"),
            Token::Export => String::from_str("Export"),
            Token::Extends => String::from_str("Extends"),
            Token::Finally => String::from_str("Finally"),
            Token::For => String::from_str("For"),
            Token::Function => String::from_str("Function"),
            Token::If => String::from_str("If"),
            Token::Import => String::from_str("Import"),
            Token::In => String::from_str("In"),
            Token::Instanceof => String::from_str("Instanceof"),
            Token::New => String::from_str("New"),
            Token::Return => String::from_str("Return"),
            Token::Super => String::from_str("Super"),
            Token::Switch => String::from_str("Switch"),
            Token::This => String::from_str("This"),
            Token::Throw => String::from_str("Throw"),
            Token::Try => String::from_str("Try"),
            Token::Typeof => String::from_str("Typeof"),
            Token::Var => String::from_str("Var"),
            Token::Void => String::from_str("Void"),
            Token::While => String::from_str("While"),
            Token::With => String::from_str("With"),
            Token::Yield => String::from_str("Yield"),
            Token::Implements => String::from_str("Implements"),
            Token::Interface => String::from_str("Interface"),
            Token::Let => String::from_str("Let"),
            Token::Package => String::from_str("Package"),
            Token::Private => String::from_str("Private"),
            Token::Protected => String::from_str("Protected"),
            Token::Public => String::from_str("Public"),
            Token::Static => String::from_str("Static"),
            Token::Async => String::from_str("Async"),
            Token::Await => String::from_str("Await"),
            Token::Undefined => String::from_str("Undefined"),
            Token::Null => String::from_str("Null"),
            Token::True => String::from_str("True"),
            Token::False => String::from_str("False"),
            Token::Number => String::from_str("Number"),
            Token::String => String::from_str("String"),
            Token::Identifier => String::from_str("Identifier"),
            Token::Plus => String::from_str("Plus"),
            Token::Subtract => String::from_str("Subtract"),
            Token::Multiply => String::from_str("Multiply"),
            Token::Slash => String::from_str("Slash"),
            Token::Remainder => String::from_str("Remainder"),
            Token::And => String::from_str("And"),
            Token::Or => String::from_str("Or"),
            Token::ExclusiveOr => String::from_str("ExclusiveOr"),
            Token::ShiftLeft => String::from_str("ShiftLeft"),
            Token::ShiftRight => String::from_str("ShiftRight"),
            Token::UnsignedShiftRight => String::from_str("UnsignedShiftRight"),
            Token::AndNot => String::from_str("AndNot"),
            Token::AddAssign => String::from_str("AddAssign"),
            Token::SubtractAssign => String::from_str("SubtractAssign"),
            Token::MultiplyAssign => String::from_str("MultiplyAssign"),
            Token::SlashAssign => String::from_str("SlashAssign"),
            Token::RemainderAssign => String::from_str("RemainderAssign"),
            Token::AndAssign => String::from_str("AndAssign"),
            Token::OrAssign => String::from_str("OrAssign"),
            Token::ExclusiveOrAssign => String::from_str("ExclusiveOrAssign"),
            Token::ShiftLeftAssign => String::from_str("ShiftLeftAssign"),
            Token::ShiftRightAssign => String::from_str("ShiftRightAssign"),
            Token::UnsignedShiftRightAssign => String::from_str("UnsignedShiftRightAssign"),
            Token::AndNotAssign => String::from_str("AndNotAssign"),
            Token::LogicalAnd => String::from_str("LogicalAnd"),
            Token::LogicalAndAssign => String::from_str("LogicalAndAssign"),
            Token::LogicalOr => String::from_str("LogicalOr"),
            Token::LogicalOrAssign => String::from_str("LogicalOrAssign"),
            Token::Increment => String::from_str("Increment"),
            Token::Decrement => String::from_str("Decrement"),
            Token::Equal => String::from_str("Equal"),
            Token::StrictEqual => String::from_str("StrictEqual"),
            Token::Less => String::from_str("Less"),
            Token::Greater => String::from_str("Greater"),
            Token::Assign => String::from_str("Assign"),
            Token::Not => String::from_str("Not"),
            Token::BitwiseNot => String::from_str("BitwiseNot"),
            Token::NotEqual => String::from_str("NotEqual"),
            Token::StrictNotEqual => String::from_str("StrictNotEqual"),
            Token::LessOrEqual => String::from_str("LessOrEqual"),
            Token::GreaterOrEqual => String::from_str("GreaterOrEqual"),
            Token::LeftParenthesis => String::from_str("LeftParenthesis"),
            Token::LeftBracket => String::from_str("LeftBracket"),
            Token::LeftBrace => String::from_str("LeftBrace"),
            Token::Comma => String::from_str("Comma"),
            Token::Period => String::from_str("Period"),
            Token::RightParenthesis => String::from_str("RightParenthesis"),
            Token::RightBracket => String::from_str("RightBracket"),
            Token::RightBrace => String::from_str("RightBrace"),
            Token::Semicolon => String::from_str("Semicolon"),
            Token::Colon => String::from_str("Colon"),
            Token::QuestionMark => String::from_str("QuestionMark"),
            Token::Backtick => String::from_str("Backtick"),
            Token::Exponentiation => String::from_str("Exponentiation"),
            Token::ExponentiationAssign => String::from_str("ExponentiationAssign"),
            Token::NullishCoalescing => String::from_str("NullishCoalescing"),
            Token::NullishCoalescingAssign => String::from_str("NullishCoalescingAssign"),
            Token::OptionalChaining => String::from_str("OptionalChaining"),
            Token::ILLEGAL => String::from_str("ILLEGAL"),
            Token::EOF => String::from_str("EOF"),
        }
    }
}

} // verus!
