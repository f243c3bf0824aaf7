//! The lexical units of the language and their mathematical views.

use vstd::prelude::*;

verus! {

/// A literal with a decimal point, held exactly: the value is
/// `whole + frac[0]/10 + frac[1]/100 + ...`, one digit per place after the point.
#[derive(Debug, PartialEq, Eq)]
pub struct Decimal {
    pub whole: u64,
    pub frac: Vec<u8>,
}

/// Ten to the power `k`.
pub open spec fn power_of_ten(k: nat) -> nat
    decreases k,
{
    if k == 0 {
        1
    } else {
        power_of_ten((k - 1) as nat) * 10
    }
}

/// The number that a run of places spells in base ten.
pub open spec fn places_number(places: Seq<u8>) -> nat
    decreases places.len(),
{
    if places.len() == 0 {
        0
    } else {
        places_number(places.drop_last()) * 10 + places.last() as nat
    }
}

/// What a [`Decimal`] is in contracts.
pub ghost struct DecimalView {
    pub whole: u64,
    pub frac: Seq<u8>,
}

impl DecimalView {
    /// Every place after the point holds a digit.
    pub open spec fn wf(self) -> bool {
        forall|k: int| 0 <= k < self.frac.len() ==> #[trigger] self.frac[k] <= 9
    }

    /// The number that the places after the point spell when read as an integer.
    pub open spec fn frac_number(self) -> nat {
        places_number(self.frac)
    }

    /// Ten to the number of places after the point.
    pub open spec fn scale(self) -> nat {
        power_of_ten(self.frac.len())
    }

    /// The value multiplied by [`Self::scale`], which is an integer: the literal's digits
    /// read with the point taken out.
    pub open spec fn scaled_value(self) -> nat {
        self.whole as nat * self.scale() + self.frac_number()
    }
}

impl View for Decimal {
    type V = DecimalView;

    open spec fn view(&self) -> DecimalView {
        DecimalView { whole: self.whole, frac: self.frac@ }
    }
}

impl Clone for Decimal {
    fn clone(&self) -> (r: Self)
        ensures
            r@ == self@,
    {
        Decimal { whole: self.whole, frac: self.frac.clone() }
    }
}

/// One lexical unit.
#[allow(non_camel_case_types)]
#[derive(Debug, PartialEq)]
pub enum Token {
    /// A literal with a decimal point.
    F64(Decimal),
    /// An integer literal, decimal or hexadecimal.
    U64(u64),
    /// Free-form identifier or keyword text.
    Symbol(String),
    /// `+`
    Plus,
    /// `-`
    Minus,
    /// `*`
    Star,
    /// `/`
    Slash,
    /// `%`
    Mod,
    /// `(`
    LParen,
    /// `)`
    RParen,
    /// `[`
    LBracket,
    /// `]`
    RBracket,
    /// `{`
    LBrace,
    /// `}`
    RBrace,
    /// The statement separator, which a line break outside brackets produces.
    Semicolon,
    /// `,`
    Comma,
    /// `.`
    Dot,
    /// `=`
    Equal,
    /// `:`
    Colon,
    /// `==`
    DoubleEqual,
    /// `!=`
    NotEqual,
    /// `<`
    LessThan,
    /// `<=`
    LessThanEq,
    /// `>`
    GreatThan,
    /// `>=`
    GreatThanEq,
    /// `&&`
    LogicAnd,
    /// `||`
    LogicOr,
    /// `&`
    And,
    /// `|`
    Or,
    /// `!`
    Not,
    /// `^`
    Xor,
    /// `=>`
    FatArrow,
    /// `@`
    At,
    /// `$`
    Cache,
    /// `#`
    Hash,
    /// `//`: kept for comments as tokens; the tokenizer discards comments and never
    /// produces it.
    DoubleSlash,
    /// Kept for an explicit delimiter; the tokenizer never produces it.
    DELIMITER,
}

/// What a [`Token`] is in contracts: the same variants over sequences.
#[allow(non_camel_case_types)]
pub ghost enum TokenView {
    F64(DecimalView),
    U64(u64),
    Symbol(Seq<char>),
    Plus,
    Minus,
    Star,
    Slash,
    Mod,
    LParen,
    RParen,
    LBracket,
    RBracket,
    LBrace,
    RBrace,
    Semicolon,
    Comma,
    Dot,
    Equal,
    Colon,
    DoubleEqual,
    NotEqual,
    LessThan,
    LessThanEq,
    GreatThan,
    GreatThanEq,
    LogicAnd,
    LogicOr,
    And,
    Or,
    Not,
    Xor,
    FatArrow,
    At,
    Cache,
    Hash,
    DoubleSlash,
    DELIMITER,
}

impl View for Token {
    type V = TokenView;

    open spec fn view(&self) -> TokenView {
        match self {
            Token::F64(d) => TokenView::F64(d@),
            Token::U64(n) => TokenView::U64(*n),
            Token::Symbol(s) => TokenView::Symbol(s@),
            Token::Plus => TokenView::Plus,
            Token::Minus => TokenView::Minus,
            Token::Star => TokenView::Star,
            Token::Slash => TokenView::Slash,
            Token::Mod => TokenView::Mod,
            Token::LParen => TokenView::LParen,
            Token::RParen => TokenView::RParen,
            Token::LBracket => TokenView::LBracket,
            Token::RBracket => TokenView::RBracket,
            Token::LBrace => TokenView::LBrace,
            Token::RBrace => TokenView::RBrace,
            Token::Semicolon => TokenView::Semicolon,
            Token::Comma => TokenView::Comma,
            Token::Dot => TokenView::Dot,
            Token::Equal => TokenView::Equal,
            Token::Colon => TokenView::Colon,
            Token::DoubleEqual => TokenView::DoubleEqual,
            Token::NotEqual => TokenView::NotEqual,
            Token::LessThan => TokenView::LessThan,
            Token::LessThanEq => TokenView::LessThanEq,
            Token::GreatThan => TokenView::GreatThan,
            Token::GreatThanEq => TokenView::GreatThanEq,
            Token::LogicAnd => TokenView::LogicAnd,
            Token::LogicOr => TokenView::LogicOr,
            Token::And => TokenView::And,
            Token::Or => TokenView::Or,
            Token::Not => TokenView::Not,
            Token::Xor => TokenView::Xor,
            Token::FatArrow => TokenView::FatArrow,
            Token::At => TokenView::At,
            Token::Cache => TokenView::Cache,
            Token::Hash => TokenView::Hash,
            Token::DoubleSlash => TokenView::DoubleSlash,
            Token::DELIMITER => TokenView::DELIMITER,
        }
    }
}

impl Clone for Token {
    fn clone(&self) -> (r: Self)
        ensures
            r@ == self@,
    {
        match self {
            Token::F64(d) => Token::F64(d.clone()),
            Token::U64(n) => Token::U64(*n),
            Token::Symbol(s) => Token::Symbol(s.clone()),
            Token::Plus => Token::Plus,
            Token::Minus => Token::Minus,
            Token::Star => Token::Star,
            Token::Slash => Token::Slash,
            Token::Mod => Token::Mod,
            Token::LParen => Token::LParen,
            Token::RParen => Token::RParen,
            Token::LBracket => Token::LBracket,
            Token::RBracket => Token::RBracket,
            Token::LBrace => Token::LBrace,
            Token::RBrace => Token::RBrace,
            Token::Semicolon => Token::Semicolon,
            Token::Comma => Token::Comma,
            Token::Dot => Token::Dot,
            Token::Equal => Token::Equal,
            Token::Colon => Token::Colon,
            Token::DoubleEqual => Token::DoubleEqual,
            Token::NotEqual => Token::NotEqual,
            Token::LessThan => Token::LessThan,
            Token::LessThanEq => Token::LessThanEq,
            Token::GreatThan => Token::GreatThan,
            Token::GreatThanEq => Token::GreatThanEq,
            Token::LogicAnd => Token::LogicAnd,
            Token::LogicOr => Token::LogicOr,
            Token::And => Token::And,
            Token::Or => Token::Or,
            Token::Not => Token::Not,
            Token::Xor => Token::Xor,
            Token::FatArrow => Token::FatArrow,
            Token::At => Token::At,
            Token::Cache => Token::Cache,
            Token::Hash => Token::Hash,
            Token::DoubleSlash => Token::DoubleSlash,
            Token::DELIMITER => Token::DELIMITER,
        }
    }
}

impl Decimal {
    /// Whether two literals are the same, place by place.
    pub fn same(&self, other: &Decimal) -> (b: bool)
        ensures
            b == (self@ == other@),
    {
        if self.whole != other.whole || self.frac.len() != other.frac.len() {
            return false;
        }
        let mut i: usize = 0;
        while i < self.frac.len()
            invariant
                i <= self.frac.len(),
                self.frac.len() == other.frac.len(),
                self.frac@.take(i as int) == other.frac@.take(i as int),
            decreases self.frac.len() - i,
        {
            if self.frac[i] != other.frac[i] {
                return false;
            }
            assert(self.frac@.take(i + 1) =~= self.frac@.take(i as int).push(self.frac@[i as int]));
            assert(other.frac@.take(i + 1) =~= other.frac@.take(i as int).push(
                other.frac@[i as int],
            ));
            i += 1;
        }
        assert(self.frac@.take(i as int) =~= self.frac@);
        assert(other.frac@.take(i as int) =~= other.frac@);
        true
    }
}

impl Token {
    /// Whether two tokens are the same, payload included.
    pub fn same(&self, other: &Token) -> (b: bool)
        ensures
            b == (self@ == other@),
    {
        match (self, other) {
            (Token::F64(a), Token::F64(b)) => a.same(b),
            (Token::U64(a), Token::U64(b)) => *a == *b,
            (Token::Symbol(a), Token::Symbol(b)) => *a == *b,
            (Token::Plus, Token::Plus) => true,
            (Token::Minus, Token::Minus) => true,
            (Token::Star, Token::Star) => true,
            (Token::Slash, Token::Slash) => true,
            (Token::Mod, Token::Mod) => true,
            (Token::LParen, Token::LParen) => true,
            (Token::RParen, Token::RParen) => true,
            (Token::LBracket, Token::LBracket) => true,
            (Token::RBracket, Token::RBracket) => true,
            (Token::LBrace, Token::LBrace) => true,
            (Token::RBrace, Token::RBrace) => true,
            (Token::Semicolon, Token::Semicolon) => true,
            (Token::Comma, Token::Comma) => true,
            (Token::Dot, Token::Dot) => true,
            (Token::Equal, Token::Equal) => true,
            (Token::Colon, Token::Colon) => true,
            (Token::DoubleEqual, Token::DoubleEqual) => true,
            (Token::NotEqual, Token::NotEqual) => true,
            (Token::LessThan, Token::LessThan) => true,
            (Token::LessThanEq, Token::LessThanEq) => true,
            (Token::GreatThan, Token::GreatThan) => true,
            (Token::GreatThanEq, Token::GreatThanEq) => true,
            (Token::LogicAnd, Token::LogicAnd) => true,
            (Token::LogicOr, Token::LogicOr) => true,
            (Token::And, Token::And) => true,
            (Token::Or, Token::Or) => true,
            (Token::Not, Token::Not) => true,
            (Token::Xor, Token::Xor) => true,
            (Token::FatArrow, Token::FatArrow) => true,
            (Token::At, Token::At) => true,
            (Token::Cache, Token::Cache) => true,
            (Token::Hash, Token::Hash) => true,
            (Token::DoubleSlash, Token::DoubleSlash) => true,
            (Token::DELIMITER, Token::DELIMITER) => true,
            _ => false,
        }
    }
}

/// The views of a run of tokens, in order.
pub open spec fn token_views(tokens: Seq<Token>) -> Seq<TokenView> {
    Seq::new(tokens.len(), |i: int| tokens[i]@)
}

} // verus!
