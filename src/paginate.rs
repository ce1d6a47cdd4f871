//! Splitting display lines into pages under a character budget, and moving
//! between those pages.

use vstd::prelude::*;
use vstd::utf8::encode_utf8;

verus! {

/// The most characters a page may hold.
pub const PAGE_CHAR_LIMIT: usize = 4096;

/// How lines are laid out into pages.
pub struct PaginatorOptions {
    sep: String,
    sep_len: usize,
    max_lines: Option<usize>,
    char_limit: usize,
}

impl PaginatorOptions {
    /// The text put before each line.
    pub closed spec fn separator(self) -> Seq<char> {
        self.sep@
    }

    /// The length of the separator in bytes.
    pub closed spec fn separator_bytes(self) -> int {
        self.sep_len as int
    }

    /// The most lines a page may hold, if bounded.
    pub closed spec fn line_limit(self) -> Option<usize> {
        self.max_lines
    }

    /// The character budget of a page.
    pub closed spec fn budget(self) -> usize {
        self.char_limit
    }

    /// A newline separator, no line limit, and the largest character budget.
    pub fn new() -> (r: Self)
        ensures
            r.separator() == seq!['\n'],
            r.separator_bytes() == encode_utf8(seq!['\n']).len() as usize,
            r.line_limit() is None,
            r.budget() == PAGE_CHAR_LIMIT,
    {
        Self::default()
    }

    /// The same options with separator `sep`.
    pub fn sep(self, sep: String) -> (r: Self)
        ensures
            r.separator() == sep@,
            r.separator_bytes() == encode_utf8(sep@).len() as usize,
            r.line_limit() == self.line_limit(),
            r.budget() == self.budget(),
    {
        let sep_len = sep.as_str().len();
        PaginatorOptions { sep, sep_len, max_lines: self.max_lines, char_limit: self.char_limit }
    }

    /// The same options with at most `max_lines` lines a page.
    pub fn max_lines(self, max_lines: usize) -> (r: Self)
        requires
            max_lines > 0,
        ensures
            r.separator() == self.separator(),
            r.separator_bytes() == self.separator_bytes(),
            r.line_limit() == Some(max_lines),
            r.budget() == self.budget(),
    {
        PaginatorOptions { sep: self.sep, sep_len: self.sep_len, max_lines: Some(max_lines), char_limit: self.char_limit }
    }

    /// The same options with a character budget of `char_limit`, capped at
    /// [`PAGE_CHAR_LIMIT`].
    pub fn char_limit(self, char_limit: usize) -> (r: Self)
        requires
            char_limit > 0,
        ensures
            r.separator() == self.separator(),
            r.separator_bytes() == self.separator_bytes(),
            r.line_limit() == self.line_limit(),
            r.budget() == if char_limit < PAGE_CHAR_LIMIT { char_limit } else { PAGE_CHAR_LIMIT },
    {
        let capped = if char_limit < PAGE_CHAR_LIMIT { char_limit } else { PAGE_CHAR_LIMIT };
        PaginatorOptions { sep: self.sep, sep_len: self.sep_len, max_lines: self.max_lines, char_limit: capped }
    }
}

impl Default for PaginatorOptions {
    fn default() -> (r: Self)
        ensures
            r.separator() == seq!['\n'],
            r.separator_bytes() == encode_utf8(seq!['\n']).len() as usize,
            r.line_limit() is None,
            r.budget() == PAGE_CHAR_LIMIT,
    {
        let sep = String::from_str("\n");
        proof {
            reveal_strlit("\n");
        }
        assert(sep@ =~= seq!['\n']);
        let sep_len = sep.as_str().len();
        PaginatorOptions { sep, sep_len, max_lines: None, char_limit: PAGE_CHAR_LIMIT }
    }
}

/// Whether a page that holds `count` lines and `chars` characters cannot take
/// a line of `line_chars` more characters.
pub open spec fn page_full(chars: int, sep_bytes: int, line_chars: int, count: int, line_limit: Option<usize>, budget: usize) -> bool {
    chars + sep_bytes + line_chars > budget || count >= match line_limit {
        Some(m) => m as int,
        None => usize::MAX as int,
    }
}

/// The pages the first lines make, with the number of lines on the last page.
/// Each line goes after the separator on the last page, or on a new page when
/// the last page is full.
pub open spec fn layout(
    lines: Seq<Seq<char>>,
    sep: Seq<char>,
    sep_bytes: int,
    line_limit: Option<usize>,
    budget: usize,
) -> (Seq<Seq<char>>, int)
    decreases lines.len(),
{
    if lines.len() == 0 {
        (seq![Seq::empty()], 0)
    } else {
        let (pages, count) = layout(lines.drop_last(), sep, sep_bytes, line_limit, budget);
        let line = lines.last();
        if page_full(pages.last().len() as int, sep_bytes, line.len() as int, count, line_limit, budget) {
            (pages.push(sep + line), 1)
        } else {
            (pages.update(pages.len() - 1, pages.last() + sep + line), count + 1)
        }
    }
}

/// The views of a list of strings.
pub open spec fn string_views(v: Seq<String>) -> Seq<Seq<char>> {
    v.map_values(|s: String| s@)
}

/// Which way to move between pages.
#[derive(Clone, Copy, Debug, PartialEq, Eq, Structural)]
pub enum PageAction {
    First,
    Previous,
    Next,
    Last,
    Stop,
}

/// Display lines laid out into pages, with the page shown (counted from 1).
pub struct EmbedLinePaginator {
    pages: Vec<String>,
    current_page: usize,
}

impl EmbedLinePaginator {
    /// The pages, in order.
    pub closed spec fn page_texts(self) -> Seq<Seq<char>> {
        string_views(self.pages@)
    }

    /// The page shown, counted from 1.
    pub closed spec fn shown(self) -> int {
        self.current_page as int
    }

    pub closed spec fn wf(self) -> bool {
        1 <= self.current_page <= self.pages@.len()
    }

    /// Lays `lines` out into pages: each line goes after the separator on the
    /// last page, or starts a new page when the last page's characters, the
    /// separator's bytes and the line's characters would exceed the budget, or
    /// the page already holds the most lines allowed. Shows the first page.
    pub fn new(lines: Vec<String>, options: PaginatorOptions) -> (r: EmbedLinePaginator)
        ensures
            r.wf(),
            r.shown() == 1,
            r.page_texts() == layout(
                string_views(lines@),
                options.separator(),
                options.separator_bytes(),
                options.line_limit(),
                options.budget(),
            ).0,
    {
        let ghost ls = string_views(lines@);
        let ghost sep = options.sep@;
        let ghost sep_bytes = options.sep_len as int;
        let sep_len = options.sep_len;
        let limit: usize = match options.max_lines {
            Some(m) => m,
            None => usize::MAX,
        };
        let mut chunks: Vec<String> = Vec::new();
        chunks.push(String::new());
        let mut in_chunk: usize = 0;
        let mut i: usize = 0;
        assert(string_views(chunks@) =~= seq![Seq::<char>::empty()]);
        while i < lines.len()
            invariant
                ls == string_views(lines@),
                sep == options.sep@,
                sep_bytes == sep_len,
                limit as int == match options.max_lines { Some(m) => m as int, None => usize::MAX as int },
                i <= lines@.len(),
                (string_views(chunks@), in_chunk as int) == layout(
                    ls.subrange(0, i as int), sep, sep_bytes, options.max_lines, options.char_limit),
                chunks@.len() >= 1,
                chunks@.len() <= i + 1,
            decreases lines@.len() - i,
        {
            let ghost pre = ls.subrange(0, i as int);
            assert(ls.subrange(0, i + 1).drop_last() =~= pre);
            assert(ls.subrange(0, i + 1).last() == lines@[i as int]@);
            let last = chunks.len() - 1;
            let chunk_chars = chunks[last].as_str().unicode_len();
            let line_chars = lines[i].as_str().unicode_len();
            let full = (chunk_chars as u128) + (sep_len as u128) + (line_chars as u128) > options.char_limit as u128
                || in_chunk >= limit;
            if full {
                let mut page = String::new();
                page.append(options.sep.as_str());
                page.append(lines[i].as_str());
                chunks.push(page);
                in_chunk = 1;
                assert(string_views(chunks@) =~= layout(pre, sep, sep_bytes, options.max_lines, options.char_limit).0.push(sep + lines@[i as int]@));
            } else {
                let mut page = String::new();
                std::mem::swap(&mut page, &mut chunks[last]);
                let ghost before = page@;
                page.append(options.sep.as_str());
                page.append(lines[i].as_str());
                chunks.set(last, page);
                in_chunk = in_chunk + 1;
                assert(string_views(chunks@) =~= layout(pre, sep, sep_bytes, options.max_lines, options.char_limit).0.update(
                    last as int, before + sep + lines@[i as int]@));
            }
            i = i + 1;
        }
        assert(ls.subrange(0, lines@.len() as int) =~= ls);
        EmbedLinePaginator { pages: chunks, current_page: 1 }
    }

    /// The number of pages.
    pub fn page_count(&self) -> (r: usize)
        ensures
            r == self.page_texts().len(),
    {
        self.pages.len()
    }

    /// The page shown, counted from 1.
    pub fn current_page(&self) -> (r: usize)
        ensures
            r == self.shown(),
    {
        self.current_page
    }

    /// The text of page `page`, counted from 1.
    pub fn page(&self, page: usize) -> (r: &String)
        requires
            1 <= page <= self.page_texts().len(),
        ensures
            r@ == self.page_texts()[page - 1],
    {
        &self.pages[page - 1]
    }

    /// Moves between pages: to the first or last, or one back or forward,
    /// wrapping around at either end. Gives `false` for `Stop`, leaving the
    /// page as it is.
    pub fn navigate(&mut self, action: PageAction) -> (r: bool)
        requires
            old(self).wf(),
        ensures
            final(self).wf(),
            final(self).page_texts() == old(self).page_texts(),
            r == (action != PageAction::Stop),
            final(self).shown() == match action {
                PageAction::First => 1,
                PageAction::Previous => if old(self).shown() == 1 { old(self).page_texts().len() as int } else { old(self).shown() - 1 },
                PageAction::Next => if old(self).shown() == old(self).page_texts().len() { 1 } else { old(self).shown() + 1 },
                PageAction::Last => old(self).page_texts().len() as int,
                PageAction::Stop => old(self).shown(),
            },
    {
        let n = self.pages.len();
        match action {
            PageAction::First => {
                self.current_page = 1;
                true
            },
            PageAction::Previous => {
                self.current_page = if self.current_page == 1 { n } else { self.current_page - 1 };
                true
            },
            PageAction::Next => {
                self.current_page = if self.current_page == n { 1 } else { self.current_page + 1 };
                true
            },
            PageAction::Last => {
                self.current_page = n;
                true
            },
            PageAction::Stop => false,
        }
    }
}

} // verus!
