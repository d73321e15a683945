use vstd::prelude::*;
use crate::termsize::Size;
use vstd::string::*;

verus! {

/// What `str::trim` leaves of a text: the text without leading and trailing
/// whitespace.
pub uninterp spec fn trimmed(s: Seq<char>) -> Seq<char>;

/// Relies on `str::trim`: strips leading and trailing whitespace, and the
/// result depends on the characters of the text alone.
#[verifier::external_body]
fn trim_reply(s: &str) -> (r: &str)
    ensures
        r@ == trimmed(s@),
{
    s.trim()
}

/// The reply that ends a session.
pub open spec fn quit_token() -> Seq<char> {
    seq!['q']
}

/// Whether a trimmed reply is the quit token (compared case-sensitively).
pub fn is_quit_token(t: &str) -> (r: bool)
    ensures
        r == (t@ == quit_token()),
{
    let len = t.unicode_len();
    if len != 1 {
        proof {
            assert(t@.len() != quit_token().len());
        }
        false
    } else {
        let c = t.get_char(0);
        proof {
            if c == 'q' {
                assert(t@ =~= quit_token());
            }
        }
        c == 'q'
    }
}

/// Why a paging session cannot start.
#[derive(Debug, Clone, Copy, PartialEq, Eq, Structural)]
pub enum ViewError {
    /// No terminal geometry: the output is not a terminal, or the query failed.
    TerminalUnavailable,
    /// The terminal has a single row, which the prompt takes, so no row of
    /// data fits on a page.
    TerminalTooSmall,
}

/// The rows of a page that fit in a window of `rows` rows: one row is kept
/// for the prompt line.
pub open spec fn usable_height(rows: nat) -> int {
    rows - 1
}

/// Number of data rows per page for a probed terminal size.
pub fn page_height_for(size: Option<Size>) -> (r: Result<usize, ViewError>)
    ensures
        size is None ==> r == Err::<usize, ViewError>(ViewError::TerminalUnavailable),
        size matches Some(s) ==> (s.rows < 2 <==> r == Err::<usize, ViewError>(
            ViewError::TerminalTooSmall,
        )),
        size matches Some(s) ==> (s.rows >= 2 ==> r == Ok::<usize, ViewError>(
            usable_height(s.rows as nat) as usize,
        )),
        r matches Ok(h) ==> h >= 1,
{
    match size {
        None => Err(ViewError::TerminalUnavailable),
        Some(s) => {
            if s.rows < 2 {
                Err(ViewError::TerminalTooSmall)
            } else {
                Ok((s.rows - 1) as usize)
            }
        },
    }
}

/// One past the last index of the page that starts at `pos`, with `h` rows
/// per page and `n` rows in all.
pub open spec fn page_end(pos: nat, h: nat, n: nat) -> nat {
    if pos + h < n {
        pos + h
    } else {
        n
    }
}

/// The indices `from, from + 1, ..., to - 1`.
pub open spec fn index_range(from: int, to: int) -> Seq<int> {
    Seq::new((to - from) as nat, |i: int| from + i)
}

/// A page to print: the rows with index in `[start, end)`, and whether the
/// prompt follows it (it does unless no row remains after it).
#[derive(Debug, Clone, Copy, PartialEq, Eq, Structural)]
pub struct Page {
    pub start: usize,
    pub end: usize,
    pub prompt: bool,
}

/// The state of one paging session: the first index not yet printed, the
/// number of rows per page, and whether the session is over.
#[derive(Debug, Clone, Copy, PartialEq, Eq, Structural)]
pub struct PageCursor {
    pub position: usize,
    pub page_height: usize,
    pub finished: bool,
}

impl PageCursor {
    pub open spec fn wf(&self) -> bool {
        self.page_height >= 1
    }

    /// The page that follows the state `self` in a session over `total` rows,
    /// if any.
    pub open spec fn next_page_spec(&self, total: nat) -> Option<Page> {
        if self.finished || self.position >= total {
            None
        } else {
            let end = page_end(self.position as nat, self.page_height as nat, total);
            Some(Page { start: self.position, end: end as usize, prompt: end < total })
        }
    }

    /// A session that starts at the first row.
    pub fn new(page_height: usize) -> (r: PageCursor)
        requires
            page_height >= 1,
        ensures
            r.wf(),
            r.position == 0,
            r.page_height == page_height,
            !r.finished,
    {
        PageCursor { position: 0, page_height, finished: false }
    }

    /// Hands out the next page of a session over `total` rows and moves past
    /// it. Once the session is over, or no row is left, it hands out nothing
    /// and the session is over.
    pub fn next_page(&mut self, total: usize) -> (r: Option<Page>)
        requires
            old(self).wf(),
        ensures
            final(self).wf(),
            final(self).page_height == old(self).page_height,
            r == old(self).next_page_spec(total as nat),
            r is None ==> final(self).position == old(self).position && final(self).finished,
            r matches Some(p) ==> final(self).position == p.end && final(self).finished
                == !p.prompt,
    {
        if self.finished || self.position >= total {
            self.finished = true;
            None
        } else {
            let end = if self.page_height < total - self.position {
                self.position + self.page_height
            } else {
                total
            };
            let start = self.position;
            self.position = end;
            self.finished = end >= total;
            Some(Page { start, end, prompt: end < total })
        }
    }

    /// Takes the line read at a prompt: the session ends when the line, with
    /// surrounding whitespace removed, is the quit token; any other line,
    /// the empty one too, continues it.
    pub fn respond(&mut self, line: &str)
        ensures
            final(self).finished == (old(self).finished || trimmed(line@) == quit_token()),
            final(self).position == old(self).position,
            final(self).page_height == old(self).page_height,
    {
        if is_quit_token(trim_reply(line)) {
            self.quit();
        }
    }

    /// Ends the session: the reply at the prompt was the quit token, or no
    /// reply could be read.
    pub fn quit(&mut self)
        ensures
            final(self).finished,
            final(self).position == old(self).position,
            final(self).page_height == old(self).page_height,
    {
        self.finished = true;
    }
}

/// The replies after the first one.
pub open spec fn later_replies(quits: Seq<bool>) -> Seq<bool> {
    if quits.len() > 0 {
        quits.drop_first()
    } else {
        quits
    }
}

/// The indices that a session over `n` rows with `h` rows per page prints
/// from index `pos` on, where `quits[k]` tells whether the reply at the
/// `k`-th prompt is the quit token. A prompt past the end of `quits` gets a
/// reply that continues.
pub open spec fn session_rows(n: nat, h: nat, pos: nat, quits: Seq<bool>) -> Seq<int>
    decreases n - pos,
{
    if h == 0 || pos >= n {
        Seq::empty()
    } else {
        let end = page_end(pos, h, n);
        let page = index_range(pos as int, end as int);
        if end >= n || (quits.len() > 0 && quits[0]) {
            page
        } else {
            page + session_rows(n, h, end, later_replies(quits))
        }
    }
}

/// How many prompts the session of `session_rows(n, h, pos, quits)` shows.
pub open spec fn session_prompts(n: nat, h: nat, pos: nat, quits: Seq<bool>) -> nat
    decreases n - pos,
{
    if h == 0 || pos >= n {
        0
    } else {
        let end = page_end(pos, h, n);
        if end >= n {
            0
        } else if quits.len() > 0 && quits[0] {
            1
        } else {
            1 + session_prompts(n, h, end, later_replies(quits))
        }
    }
}

/// `index_range(a, b)` followed by `index_range(b, c)` is `index_range(a, c)`.
pub proof fn lemma_index_range_concat(a: int, b: int, c: int)
    requires
        a <= b <= c,
    ensures
        index_range(a, b) + index_range(b, c) == index_range(a, c),
{
    assert(index_range(a, b) + index_range(b, c) =~= index_range(a, c));
}

proof fn lemma_quit_free_from(n: nat, h: nat, pos: nat, quits: Seq<bool>)
    requires
        h >= 1,
        pos <= n,
        forall|i: int| 0 <= i < quits.len() ==> !quits[i],
    ensures
        session_rows(n, h, pos, quits) == index_range(pos as int, n as int),
    decreases n - pos,
{
    if pos >= n {
        assert(index_range(pos as int, n as int) =~= Seq::<int>::empty());
    } else {
        let end = page_end(pos, h, n);
        if end < n {
            let later = later_replies(quits);
            assert forall|i: int| 0 <= i < later.len() implies !later[i] by {
                assert(later[i] == quits[i + 1]);
            }
            lemma_quit_free_from(n, h, end, later);
            lemma_index_range_concat(pos as int, end as int, n as int);
        }
    }
}

/// With no quit among the replies, a session over `n` rows with `h >= 1` rows
/// per page prints every index of `[0, n)` exactly once, in increasing order.
pub proof fn lemma_quit_free_session_prints_all(n: nat, h: nat, quits: Seq<bool>)
    requires
        h >= 1,
        forall|i: int| 0 <= i < quits.len() ==> !quits[i],
    ensures
        session_rows(n, h, 0, quits) == index_range(0, n as int),
        session_rows(n, h, 0, quits).len() == n,
        forall|i: int| 0 <= i < n ==> session_rows(n, h, 0, quits)[i] == i,
{
    lemma_quit_free_from(n, h, 0, quits);
}

proof fn lemma_quit_at_from(n: nat, h: nat, pos: nat, quits: Seq<bool>, k: nat)
    requires
        h >= 1,
        pos <= n,
        k < quits.len(),
        quits[k as int],
        forall|j: int| 0 <= j < k ==> !quits[j],
    ensures
        session_rows(n, h, pos, quits) == index_range(
            pos as int,
            if pos + (k + 1) * h < n {
                (pos + (k + 1) * h) as int
            } else {
                n as int
            },
        ),
    decreases k,
{
    assert((k + 1) * h == h + k * h) by (nonlinear_arith);
    assert(k * h >= 0) by (nonlinear_arith)
        requires
            h >= 1,
    ;
    if pos >= n {
        assert(index_range(pos as int, n as int) =~= Seq::<int>::empty());
    } else {
        let end = page_end(pos, h, n);
        if end >= n {
            assert(pos + (k + 1) * h >= n);
        } else if k == 0 {
            assert((k + 1) * h == h) by (nonlinear_arith)
                requires
                    k == 0,
            ;
            assert(session_rows(n, h, pos, quits) == index_range(pos as int, end as int));
        } else {
            let later = later_replies(quits);
            assert forall|j: int| 0 <= j < k - 1 implies !later[j] by {
                assert(later[j] == quits[j + 1]);
            }
            assert(later[k - 1] == quits[k as int]);
            lemma_quit_at_from(n, h, end, later, (k - 1) as nat);
            let stop = if pos + (k + 1) * h < n {
                (pos + (k + 1) * h) as int
            } else {
                n as int
            };
            lemma_index_range_concat(pos as int, end as int, stop);
        }
    }
}

/// When the first quit token comes at prompt `k`, the session prints the
/// first `k + 1` pages and nothing after them: exactly the indices below
/// `min((k + 1) * h, n)`, in increasing order.
pub proof fn lemma_quit_halts_output(n: nat, h: nat, quits: Seq<bool>, k: nat)
    requires
        h >= 1,
        k < quits.len(),
        quits[k as int],
        forall|j: int| 0 <= j < k ==> !quits[j],
    ensures
        session_rows(n, h, 0, quits) == index_range(
            0,
            if (k + 1) * h < n {
                ((k + 1) * h) as int
            } else {
                n as int
            },
        ),
{
    lemma_quit_at_from(n, h, 0, quits, k);
}

/// The indices of a sequence of `usize`, as integers.
pub open spec fn as_ints(s: Seq<usize>) -> Seq<int> {
    s.map_values(|v: usize| v as int)
}

/// Runs a session over `total` rows with `page_height` rows per page, where
/// `quits[k]` is whether the reply at the `k`-th prompt is the quit token.
/// Returns the indices printed, in order, and the number of prompts shown.
pub fn simulate_session(total: usize, page_height: usize, quits: &Vec<bool>) -> (r: (
    Vec<usize>,
    usize,
))
    requires
        page_height >= 1,
    ensures
        as_ints(r.0@) == session_rows(total as nat, page_height as nat, 0, quits@),
        r.1 == session_prompts(total as nat, page_height as nat, 0, quits@),
{
    let ghost n = total as nat;
    let ghost h = page_height as nat;
    let ghost full = session_rows(n, h, 0, quits@);
    let ghost full_p = session_prompts(n, h, 0, quits@);
    let mut cur = PageCursor::new(page_height);
    let mut out: Vec<usize> = Vec::new();
    let mut prompts: usize = 0;
    let mut k: usize = 0;
    assert(quits@.subrange(0, quits@.len() as int) =~= quits@);
    assert(index_range(0, 0) =~= Seq::<int>::empty());
    loop
        invariant
            n == total as nat,
            h == page_height as nat,
            full == session_rows(n, h, 0, quits@),
            full_p == session_prompts(n, h, 0, quits@),
            cur.wf(),
            cur.page_height == page_height,
            cur.position <= total,
            k <= quits.len(),
            prompts <= cur.position,
            out@.len() == cur.position,
            forall|j: int| 0 <= j < out@.len() ==> out@[j] == j,
            !cur.finished ==> index_range(0, cur.position as int) + session_rows(
                n,
                h,
                cur.position as nat,
                quits@.subrange(k as int, quits@.len() as int),
            ) == full,
            !cur.finished ==> prompts + session_prompts(
                n,
                h,
                cur.position as nat,
                quits@.subrange(k as int, quits@.len() as int),
            ) == full_p,
            cur.finished ==> index_range(0, cur.position as int) == full,
            cur.finished ==> prompts == full_p,
        ensures
            cur.finished,
            cur.position <= total,
            out@.len() == cur.position,
            forall|j: int| 0 <= j < out@.len() ==> out@[j] == j,
            index_range(0, cur.position as int) == full,
            prompts == full_p,
        decreases 2 * (total - cur.position) + (if cur.finished { 0int } else { 1int }),
    {
        let ghost pos = cur.position as nat;
        let ghost rest = quits@.subrange(k as int, quits@.len() as int);
        let ghost was_finished = cur.finished;
        match cur.next_page(total) {
            None => {
                proof {
                    if !was_finished {
                        assert(session_rows(n, h, pos, rest) =~= Seq::<int>::empty());
                        assert(index_range(0, pos as int) + Seq::<int>::empty() =~= index_range(
                            0,
                            pos as int,
                        ));
                    }
                }
                break;
            },
            Some(p) => {
                let mut i: usize = p.start;
                while i < p.end
                    invariant
                        p.start <= i <= p.end,
                        p.end <= total,
                        out@.len() == i,
                        forall|j: int| 0 <= j < out@.len() ==> out@[j] == j,
                    decreases p.end - i,
                {
                    out.push(i);
                    i = i + 1;
                }
                proof {
                    lemma_index_range_concat(0, pos as int, p.end as int);
                }
                proof {
                    let page = index_range(pos as int, p.end as int);
                    assert(p.end as nat == page_end(pos, h, n));
                    if !p.prompt {
                        assert(session_rows(n, h, pos, rest) == page);
                        assert(session_prompts(n, h, pos, rest) == 0);
                    } else if rest.len() > 0 && rest[0] {
                        assert(session_rows(n, h, pos, rest) == page);
                        assert(session_prompts(n, h, pos, rest) == 1);
                    } else {
                        assert(session_rows(n, h, pos, rest) == page + session_rows(
                            n,
                            h,
                            p.end as nat,
                            later_replies(rest),
                        ));
                        assert(session_prompts(n, h, pos, rest) == 1 + session_prompts(
                            n,
                            h,
                            p.end as nat,
                            later_replies(rest),
                        ));
                        assert(index_range(0, pos as int) + (page + session_rows(
                            n,
                            h,
                            p.end as nat,
                            later_replies(rest),
                        )) =~= index_range(0, pos as int) + page + session_rows(
                            n,
                            h,
                            p.end as nat,
                            later_replies(rest),
                        ));
                    }
                }
                if p.prompt {
                    prompts = prompts + 1;
                    let mut q = false;
                    if k < quits.len() {
                        q = quits[k];
                        proof {
                            assert(rest[0] == q);
                        }
                        k = k + 1;
                        proof {
                            assert(quits@.subrange(k as int, quits@.len() as int) =~= later_replies(
                                rest,
                            ));
                        }
                    } else {
                        proof {
                            assert(rest =~= Seq::<bool>::empty());
                        }
                    }
                    if q {
                        cur.quit();
                    }
                }
            },
        }
    }
    assert(as_ints(out@) =~= index_range(0, cur.position as int));
    (out, prompts)
}

} // verus!
