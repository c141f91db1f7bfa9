//! The pretty printer: formatting options and the text buffer that tokens
//! are written to.
use vstd::prelude::*;
use crate::defs::Spanned;
use crate::text::push_char;
use crate::toks::{token_text, Token};

verus! {

pub fn default_width() -> (r: usize)
    ensures
        r == 120,
{
    120
}

pub fn default_indent_width() -> (r: usize)
    ensures
        r == 4,
{
    4
}

pub fn preserve_adjacent_blank_lines() -> (r: bool)
    ensures
        r,
{
    true
}

pub fn default_tabs() -> (r: bool)
    ensures
        r,
{
    true
}

/// Options of the formatter.
#[derive(Clone, Copy, Debug)]
pub struct FormatConfig {
    pub max_width: usize,
    pub indent_with_tabs: bool,
    pub indent_width: usize,
    pub preserve_adjacent_blank_lines: bool,
}

impl Default for FormatConfig {
    fn default() -> (r: Self)
        ensures
            r.max_width == 120,
            r.indent_with_tabs,
            r.indent_width == 4,
            r.preserve_adjacent_blank_lines,
    {
        FormatConfig {
            max_width: default_width(),
            indent_with_tabs: default_tabs(),
            indent_width: default_indent_width(),
            preserve_adjacent_blank_lines: preserve_adjacent_blank_lines(),
        }
    }
}

/// A text buffer with the indentation and nesting state of the formatter.
#[derive(Debug)]
pub struct Printer {
    pub buf: String,
    pub indent_level: usize,
    pub paren_depth: usize,
    pub brace_depth: usize,
    pub bracket_depth: usize,
    pub cfg: FormatConfig,
}

/// The indentation written at the start of a line: one tab per level, or
/// `indent_width` spaces per level.
pub open spec fn indent_text(level: nat, cfg: FormatConfig) -> Seq<char> {
    if cfg.indent_with_tabs {
        Seq::new(level, |i: int| '\t')
    } else {
        Seq::new((level * cfg.indent_width) as nat, |i: int| ' ')
    }
}

/// Indentation can be written without overflow.
pub open spec fn indent_fits(level: nat, cfg: FormatConfig) -> bool {
    cfg.indent_with_tabs || level * cfg.indent_width <= usize::MAX
}

/// A value that can write itself to a printer, appending its text.
pub trait ToTokens {
    /// The text the value writes.
    spec fn tokens_text(&self) -> Seq<char>;

    fn write(&self, tt: &mut Printer)
        ensures
            final(tt).buf@ == old(tt).buf@ + self.tokens_text(),
            final(tt).indent_level == old(tt).indent_level,
            final(tt).cfg == old(tt).cfg,
    ;
}

impl ToTokens for Token {
    open spec fn tokens_text(&self) -> Seq<char> {
        token_text(self@)
    }

    fn write(&self, tt: &mut Printer) {
        tt.token(self);
    }
}

impl<T: ToTokens> ToTokens for Spanned<T> {
    open spec fn tokens_text(&self) -> Seq<char> {
        self.value.tokens_text()
    }

    fn write(&self, tt: &mut Printer) {
        self.value.write(tt);
    }
}

impl Printer {
    pub fn new(cfg: &FormatConfig) -> (r: Self)
        ensures
            r.buf@ == Seq::<char>::empty(),
            r.indent_level == 0,
            r.paren_depth == 0,
            r.brace_depth == 0,
            r.bracket_depth == 0,
            r.cfg == *cfg,
    {
        Printer {
            buf: String::new(),
            indent_level: 0,
            paren_depth: 0,
            brace_depth: 0,
            bracket_depth: 0,
            cfg: *cfg,
        }
    }

    pub fn word(&mut self, s: &str)
        ensures
            final(self).buf@ == old(self).buf@ + s@,
            final(self).indent_level == old(self).indent_level,
            final(self).cfg == old(self).cfg,
    {
        self.buf.append(s);
    }

    pub fn token(&mut self, t: &Token)
        ensures
            final(self).buf@ == old(self).buf@ + token_text(t@),
            final(self).indent_level == old(self).indent_level,
            final(self).cfg == old(self).cfg,
            final(self).paren_depth == old(self).paren_depth,
            final(self).brace_depth == old(self).brace_depth,
            final(self).bracket_depth == old(self).bracket_depth,
    {
        t.write_text(&mut self.buf);
    }

    pub fn space(&mut self)
        ensures
            final(self).buf@ == old(self).buf@.push(' '),
            final(self).indent_level == old(self).indent_level,
            final(self).cfg == old(self).cfg,
    {
        push_char(&mut self.buf, ' ');
    }

    pub fn add_newline(&mut self)
        requires
            indent_fits(old(self).indent_level as nat, old(self).cfg),
        ensures
            final(self).buf@ == old(self).buf@ + seq!['\n'] + indent_text(old(self).indent_level as nat, old(self).cfg),
            final(self).indent_level == old(self).indent_level,
            final(self).cfg == old(self).cfg,
            final(self).paren_depth == old(self).paren_depth,
            final(self).brace_depth == old(self).brace_depth,
            final(self).bracket_depth == old(self).bracket_depth,
    {
        push_char(&mut self.buf, '\n');
        self.add_indent();
    }

    pub fn add_indent(&mut self)
        requires
            indent_fits(old(self).indent_level as nat, old(self).cfg),
        ensures
            final(self).buf@ == old(self).buf@ + indent_text(old(self).indent_level as nat, old(self).cfg),
            final(self).indent_level == old(self).indent_level,
            final(self).cfg == old(self).cfg,
            final(self).paren_depth == old(self).paren_depth,
            final(self).brace_depth == old(self).brace_depth,
            final(self).bracket_depth == old(self).bracket_depth,
    {
        let (n, c) = if self.cfg.indent_with_tabs {
            (self.indent_level, '\t')
        } else {
            (self.indent_level * self.cfg.indent_width, ' ')
        };
        let ghost start = self.buf@;
        let mut k: usize = 0;
        while k < n
            invariant
                k <= n,
                self.buf@ == start + Seq::new(k as nat, |i: int| c),
                self.indent_level == old(self).indent_level,
                self.cfg == old(self).cfg,
                self.paren_depth == old(self).paren_depth,
                self.brace_depth == old(self).brace_depth,
                self.bracket_depth == old(self).bracket_depth,
            decreases n - k,
        {
            push_char(&mut self.buf, c);
            assert(Seq::new((k + 1) as nat, |i: int| c) =~= Seq::new(k as nat, |i: int| c).push(c));
            k += 1;
        }
        assert(self.buf@ =~= start + indent_text(old(self).indent_level as nat, old(self).cfg));
    }

    /// Writes `{`, enters one level of indentation and starts a new line.
    pub fn open_block(&mut self)
        requires
            old(self).indent_level < usize::MAX,
            indent_fits((old(self).indent_level + 1) as nat, old(self).cfg),
        ensures
            final(self).indent_level == old(self).indent_level + 1,
            final(self).buf@ == old(self).buf@ + seq!['{'] + seq!['\n'] + indent_text(final(self).indent_level as nat, old(self).cfg),
            final(self).cfg == old(self).cfg,
            final(self).paren_depth == old(self).paren_depth,
            final(self).brace_depth == old(self).brace_depth,
            final(self).bracket_depth == old(self).bracket_depth,
    {
        self.token(&Token::LBrace);
        self.indent_level += 1;
        self.add_newline();
    }

    /// Leaves one level of indentation (none below zero), starts a new line
    /// and writes `}`.
    pub fn close_block(&mut self)
        requires
            indent_fits(old(self).indent_level as nat, old(self).cfg),
        ensures
            final(self).indent_level == if old(self).indent_level > 0 { (old(self).indent_level - 1) as usize } else { 0 },
            final(self).buf@ == old(self).buf@ + seq!['\n'] + indent_text(final(self).indent_level as nat, old(self).cfg) + seq!['}'],
            final(self).cfg == old(self).cfg,
            final(self).paren_depth == old(self).paren_depth,
            final(self).brace_depth == old(self).brace_depth,
            final(self).bracket_depth == old(self).bracket_depth,
    {
        let ghost before = self.indent_level;
        if self.indent_level > 0 {
            self.indent_level -= 1;
        }
        proof {
            let a = self.indent_level;
            let w = self.cfg.indent_width;
            if !self.cfg.indent_with_tabs {
                assert(a * w <= before * w) by (nonlinear_arith)
                    requires a <= before;
            }
        }
        self.add_newline();
        self.token(&Token::RBrace);
    }

    pub fn write<W: ToTokens>(&mut self, w: &W)
        ensures
            final(self).buf@ == old(self).buf@ + w.tokens_text(),
            final(self).indent_level == old(self).indent_level,
            final(self).cfg == old(self).cfg,
    {
        w.write(self);
    }

    /// Writes the items with `,` and a new line between them.
    pub fn write_comma_separated<T: ToTokens>(&mut self, items: &Vec<T>)
        requires
            indent_fits(old(self).indent_level as nat, old(self).cfg),
        ensures
            final(self).buf@ == old(self).buf@ + join_texts(items@, seq![','] + seq!['\n'] + indent_text(old(self).indent_level as nat, old(self).cfg)),
            final(self).indent_level == old(self).indent_level,
            final(self).cfg == old(self).cfg,
    {
        let ghost sep = seq![','] + seq!['\n'] + indent_text(old(self).indent_level as nat, old(self).cfg);
        let len = items.len();
        let mut idx: usize = 0;
        while idx < len
            invariant
                len == items@.len(),
                idx <= len,
                self.indent_level == old(self).indent_level,
                self.cfg == old(self).cfg,
                indent_fits(self.indent_level as nat, self.cfg),
                sep == seq![','] + seq!['\n'] + indent_text(old(self).indent_level as nat, old(self).cfg),
                self.buf@ == old(self).buf@ + join_texts(items@.subrange(0, idx as int), sep)
                    + (if 0 < idx < len { sep } else { Seq::empty() }),
            decreases len - idx,
        {
            let ghost before = self.buf@;
            self.write(&items[idx]);
            if idx < len - 1 {
                self.token(&Token::Comma);
                self.add_newline();
            }
            proof {
                lemma_join_texts_push(items@.subrange(0, idx as int), items@[idx as int], sep);
                assert(items@.subrange(0, idx + 1) =~= items@.subrange(0, idx as int).push(items@[idx as int]));
                assert(self.buf@ =~= old(self).buf@ + join_texts(items@.subrange(0, idx + 1), sep)
                    + (if 0 < idx + 1 < len { sep } else { Seq::empty() }));
            }
            idx += 1;
        }
        assert(items@.subrange(0, len as int) =~= items@);
        assert(self.buf@ =~= old(self).buf@ + join_texts(items@, sep));
    }

    /// Writes the items with `, ` between them.
    pub fn write_comma_separated_inline<T: ToTokens>(&mut self, items: &Vec<T>)
        ensures
            final(self).buf@ == old(self).buf@ + join_texts(items@, seq![','] + seq![' ']),
            final(self).indent_level == old(self).indent_level,
            final(self).cfg == old(self).cfg,
    {
        let ghost sep = seq![','] + seq![' '];
        let len = items.len();
        let mut idx: usize = 0;
        while idx < len
            invariant
                len == items@.len(),
                idx <= len,
                self.indent_level == old(self).indent_level,
                self.cfg == old(self).cfg,
                sep == seq![','] + seq![' '],
                self.buf@ == old(self).buf@ + join_texts(items@.subrange(0, idx as int), sep)
                    + (if 0 < idx < len { sep } else { Seq::empty() }),
            decreases len - idx,
        {
            self.write(&items[idx]);
            if idx < len - 1 {
                self.token(&Token::Comma);
                self.space();
            }
            proof {
                lemma_join_texts_push(items@.subrange(0, idx as int), items@[idx as int], sep);
                assert(items@.subrange(0, idx + 1) =~= items@.subrange(0, idx as int).push(items@[idx as int]));
                assert(self.buf@ =~= old(self).buf@ + join_texts(items@.subrange(0, idx + 1), sep)
                    + (if 0 < idx + 1 < len { sep } else { Seq::empty() }));
            }
            idx += 1;
        }
        assert(items@.subrange(0, len as int) =~= items@);
        assert(self.buf@ =~= old(self).buf@ + join_texts(items@, sep));
    }
}

/// The texts of the items with `sep` between them.
pub open spec fn join_texts<T: ToTokens>(items: Seq<T>, sep: Seq<char>) -> Seq<char>
    decreases items.len(),
{
    if items.len() == 0 {
        Seq::empty()
    } else if items.len() == 1 {
        items[0].tokens_text()
    } else {
        join_texts(items.drop_last(), sep) + sep + items.last().tokens_text()
    }
}

proof fn lemma_join_texts_push<T: ToTokens>(items: Seq<T>, x: T, sep: Seq<char>)
    ensures
        join_texts(items.push(x), sep) == if items.len() == 0 {
            x.tokens_text()
        } else {
            join_texts(items, sep) + sep + x.tokens_text()
        },
{
    assert(items.push(x).drop_last() =~= items);
}

/// The texts of the tokens, one after the other.
pub open spec fn tokens_text(tokens: Seq<Spanned<Token>>) -> Seq<char>
    decreases tokens.len(),
{
    if tokens.len() == 0 {
        Seq::empty()
    } else {
        tokens_text(tokens.drop_last()) + token_text(tokens.last().value@)
    }
}

/// Prints tokens one after the other, with nothing between them.
pub fn print_tokens(tokens: &[Spanned<Token>], cfg: &FormatConfig) -> (r: String)
    ensures
        r@ == tokens_text(tokens@),
{
    let mut p = Printer::new(cfg);
    let mut k: usize = 0;
    while k < tokens.len()
        invariant
            k <= tokens@.len(),
            p.buf@ == tokens_text(tokens@.subrange(0, k as int)),
        decreases tokens@.len() - k,
    {
        p.token(&tokens[k].value);
        assert(tokens@.subrange(0, k + 1).drop_last() =~= tokens@.subrange(0, k as int));
        k += 1;
    }
    assert(tokens@.subrange(0, tokens@.len() as int) =~= tokens@);
    p.buf
}

} // verus!
