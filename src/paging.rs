//! Moving through the pages of a long listing with next and previous
//! buttons, wrapping around at either end.

use vstd::prelude::*;
use vstd::arithmetic::div_mod::{
    lemma_fundamental_div_mod, lemma_fundamental_div_mod_converse, lemma_mod_pos_bound,
    lemma_small_mod,
};

verus! {

/// A press of one of the two navigation buttons.
#[derive(Clone, Copy, PartialEq, Eq, Structural)]
pub enum PageTurn {
    Next,
    Previous,
}

/// The page shown after `turn` on page `current` of `page_count`.
pub fn turn_page(current: usize, page_count: usize, turn: PageTurn) -> (r: usize)
    requires
        current < page_count,
    ensures
        r < page_count,
        turn == PageTurn::Next ==> r == (current + 1) % (page_count as int),
        turn == PageTurn::Previous ==> r == (current + page_count - 1) % (page_count as int),
{
    match turn {
        PageTurn::Next => {
            if current + 1 >= page_count {
                proof {
                    lemma_fundamental_div_mod_converse(current + 1, page_count as int, 1, 0);
                }
                0
            } else {
                proof {
                    lemma_small_mod((current + 1) as nat, page_count as nat);
                }
                current + 1
            }
        },
        PageTurn::Previous => {
            if current == 0 {
                proof {
                    lemma_small_mod((page_count - 1) as nat, page_count as nat);
                }
                page_count - 1
            } else {
                proof {
                    lemma_fundamental_div_mod_converse(
                        current + page_count - 1,
                        page_count as int,
                        1,
                        current - 1,
                    );
                }
                current - 1
            }
        },
    }
}

/// How many pages of `per_page` lines `total` lines fill.
pub fn page_count(total: usize, per_page: usize) -> (r: usize)
    requires
        per_page > 0,
    ensures
        r == (total + per_page - 1) / (per_page as int),
{
    let q = total / per_page;
    let m = total % per_page;
    proof {
        lemma_fundamental_div_mod(total as int, per_page as int);
        lemma_mod_pos_bound(total as int, per_page as int);
        assert(per_page * q == q * per_page) by (nonlinear_arith);
        assert(q * per_page >= q) by (nonlinear_arith)
            requires
                per_page >= 1,
                q >= 0,
        ;
    }
    if m == 0 {
        proof {
            lemma_fundamental_div_mod_converse(
                total + per_page - 1,
                per_page as int,
                q as int,
                per_page - 1,
            );
        }
        q
    } else {
        proof {
            assert((q + 1) * per_page == q * per_page + per_page) by (nonlinear_arith);
            lemma_fundamental_div_mod_converse(
                total + per_page - 1,
                per_page as int,
                q + 1,
                m - 1,
            );
        }
        q + 1
    }
}

} // verus!
