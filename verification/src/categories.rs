//! Rules for editing the category tree.

use vstd::prelude::*;
use crate::category_tree::{find_last, last_with_id};
use crate::error::AppError;
use crate::models::Category;

verus! {

/// The parent of category `id` (that of the last category with the id).
pub open spec fn parent_of(cats: Seq<Category>, id: i64) -> Option<i64> {
    match last_with_id(cats, id) {
        Some(i) => cats[i].parent_id,
        None => None,
    }
}

/// Whether `target` is met walking up from `cur` within `fuel` steps.
pub open spec fn chain_meets(cats: Seq<Category>, target: i64, cur: Option<i64>, fuel: nat) -> bool
    decreases fuel,
{
    fuel > 0 && match cur {
        None => false,
        Some(c) => c == target || chain_meets(cats, target, parent_of(cats, c), (fuel - 1) as nat),
    }
}

/// Refuses a parent for `category_id` that is the category itself or
/// one of its descendants: walking up from the proposed parent must not
/// meet the category. The walk ends after as many steps as there are
/// categories, one more than an acyclic chain can take.
pub fn check_circular_parent(cats: &Vec<Category>, category_id: i64, proposed_parent_id: Option<i64>) -> (res: Result<
    (),
    AppError,
>)
    ensures
        res is Err <==> chain_meets(cats@, category_id, proposed_parent_id, cats@.len() + 1),
        res matches Err(e) ==> e matches AppError::Validation(m) && m@
            == "Cannot set parent: would create a circular reference"@,
{
    let mut current = proposed_parent_id;
    let mut steps: u128 = 0;
    let n = cats.len() as u128;
    while steps <= n
        invariant
            steps <= n + 1,
            n <= usize::MAX,
            n == cats@.len(),
            chain_meets(cats@, category_id, proposed_parent_id, (n + 1) as nat) == chain_meets(
                cats@,
                category_id,
                current,
                (n + 1 - steps) as nat,
            ),
        decreases n + 1 - steps,
    {
        match current {
            None => {
                return Ok(());
            },
            Some(cid) => {
                if cid == category_id {
                    return Err(AppError::Validation(String::from_str("Cannot set parent: would create a circular reference")));
                }
                current = match find_last(cats, cid) {
                    Some(i) => cats[i].parent_id,
                    None => None,
                };
            },
        }
        steps += 1;
    }
    Ok(())
}

} // verus!
