//! What a row of the scene tree calls its entity.

use vstd::prelude::*;
use vstd::string::*;

use crate::entity::Entity;

verus! {

/// The character of the decimal digit `d`.
pub open spec fn digit_char(d: nat) -> char {
    if d == 0 {
        '0'
    } else if d == 1 {
        '1'
    } else if d == 2 {
        '2'
    } else if d == 3 {
        '3'
    } else if d == 4 {
        '4'
    } else if d == 5 {
        '5'
    } else if d == 6 {
        '6'
    } else if d == 7 {
        '7'
    } else if d == 8 {
        '8'
    } else {
        '9'
    }
}

/// `n` written in decimal, with no leading zeros.
pub open spec fn decimal(n: nat) -> Seq<char>
    decreases n,
{
    if n < 10 {
        seq![digit_char(n)]
    } else {
        decimal(n / 10).push(digit_char(n % 10))
    }
}

/// What a row calls an entity named `name` in slot `index`: its name, or,
/// unnamed or named the empty string mid-rename, `Entity` and its slot.
pub open spec fn row_label(name: Option<Seq<char>>, index: u32) -> Seq<char> {
    match name {
        Some(text) => if text.len() > 0 {
            text
        } else {
            "Entity "@ + decimal(index as nat)
        },
        None => "Entity "@ + decimal(index as nat),
    }
}

/// The one-character string of the decimal digit `d`.
fn digit(d: u32) -> (text: &'static str)
    requires
        d < 10,
    ensures
        text@ == seq![digit_char(d as nat)],
{
    let text = if d == 0 {
        "0"
    } else if d == 1 {
        "1"
    } else if d == 2 {
        "2"
    } else if d == 3 {
        "3"
    } else if d == 4 {
        "4"
    } else if d == 5 {
        "5"
    } else if d == 6 {
        "6"
    } else if d == 7 {
        "7"
    } else if d == 8 {
        "8"
    } else {
        "9"
    };
    proof {
        reveal_strlit("0");
        reveal_strlit("1");
        reveal_strlit("2");
        reveal_strlit("3");
        reveal_strlit("4");
        reveal_strlit("5");
        reveal_strlit("6");
        reveal_strlit("7");
        reveal_strlit("8");
        reveal_strlit("9");
        assert(text@ =~= seq![digit_char(d as nat)]);
    }
    text
}

/// Appends `n` in decimal to `text`.
fn append_decimal(text: &mut String, n: u32)
    ensures
        final(text)@ == old(text)@ + decimal(n as nat),
    decreases n,
{
    if n >= 10 {
        append_decimal(text, n / 10);
    }
    text.append(digit(n % 10));
    proof {
        if n >= 10 {
            assert(old(text)@ + decimal((n / 10) as nat) + seq![digit_char((n % 10) as nat)] =~= old(
                text,
            )@ + decimal(n as nat));
        } else {
            assert(old(text)@ + seq![digit_char((n % 10) as nat)] =~= old(text)@ + decimal(
                n as nat,
            ));
        }
    }
}

/// What a row calls an entity named `name` in slot `index`.
///
/// The slot is what the inspector shows too, so the two panels agree on an
/// entity that has no name.
pub fn label(name: Option<&str>, index: u32) -> (label: String)
    ensures
        label@ == row_label(
            match name {
                Some(text) => Some(text@),
                None => None,
            },
            index,
        ),
{
    match name {
        Some(text) => {
            if text.unicode_len() > 0 {
                return String::from_str(text);
            }
        },
        None => {},
    }
    let mut label = String::from_str("Entity ");
    append_decimal(&mut label, index);
    label
}


/// The scene entities of `scene` that `drawn` does not hold, in scene order.
pub open spec fn undrawn(scene: Seq<Entity>, drawn: Seq<Entity>) -> Seq<Entity> {
    scene.filter(|e: Entity| !drawn.contains(e))
}

/// Whether `rows` come in slot order.
pub open spec fn by_slot(rows: Seq<Entity>) -> bool {
    forall|i: int, j: int| 0 <= i < j < rows.len() ==> rows[i].index <= rows[j].index
}

/// Whether `drawn` holds `entity`.
fn holds(drawn: &[Entity], entity: Entity) -> (found: bool)
    ensures
        found == drawn@.contains(entity),
{
    let mut i: usize = 0;
    while i < drawn.len()
        invariant
            0 <= i <= drawn@.len(),
            forall|k: int| 0 <= k < i ==> drawn@[k] != entity,
        decreases drawn@.len() - i,
    {
        if drawn[i] == entity {
            return true;
        }
        i = i + 1;
    }
    false
}

/// The scene entities the walk from the roots never reached, by slot.
///
/// A parent that was despawned, or a cycle no root leads into, would
/// otherwise hide its entities from the tree altogether; listing them after
/// the tree keeps every scene entity reachable from the panel.
pub fn orphans(scene: &[Entity], drawn: &[Entity]) -> (left: Vec<Entity>)
    ensures
        left@.to_multiset() == undrawn(scene@, drawn@).to_multiset(),
        by_slot(left@),
{
    broadcast use vstd::seq_lib::group_to_multiset_ensures;

    let mut left: Vec<Entity> = Vec::new();
    let mut i: usize = 0;
    proof {
        assert(scene@.take(0) =~= Seq::<Entity>::empty());
        assert(undrawn(scene@.take(0), drawn@) =~= Seq::<Entity>::empty());
    }
    while i < scene.len()
        invariant
            0 <= i <= scene@.len(),
            left@.to_multiset() == undrawn(scene@.take(i as int), drawn@).to_multiset(),
            by_slot(left@),
        decreases scene@.len() - i,
    {
        let entity = scene[i];
        let ghost kept = undrawn(scene@.take(i as int), drawn@);
        proof {
            assert(scene@.take(i + 1) =~= scene@.take(i as int).push(entity));
            scene@.take(i as int).lemma_filter_push(entity, |e: Entity| !drawn@.contains(e));
            if drawn@.contains(entity) {
                assert(undrawn(scene@.take(i + 1), drawn@) == kept);
            } else {
                assert(undrawn(scene@.take(i + 1), drawn@) == kept.push(entity));
            }
        }
        if !holds(drawn, entity) {
            let mut p: usize = 0;
            while p < left.len() && left[p].index <= entity.index
                invariant
                    0 <= p <= left@.len(),
                    forall|k: int| 0 <= k < p ==> left@[k].index <= entity.index,
                    left@.to_multiset() == kept.to_multiset(),
                    by_slot(left@),
                decreases left@.len() - p,
            {
                p = p + 1;
            }
            let ghost before = left@;
            left.insert(p, entity);
            proof {
                assert(left@ == before.insert(p as int, entity));
                vstd::seq_lib::to_multiset_insert(before, p as int, entity);
                vstd::seq_lib::to_multiset_build(kept, entity);
                assert forall|a: int, b: int| 0 <= a < b < left@.len() implies left@[a].index
                    <= left@[b].index by {
                    if b < p {
                        assert(left@[a] == before[a] && left@[b] == before[b]);
                    } else if b == p {
                        assert(left@[a] == before[a]);
                    } else if a < p {
                        assert(left@[a] == before[a] && left@[b] == before[b - 1]);
                        if p < before.len() {
                            assert(before[p as int].index > entity.index);
                            assert(before[a].index <= entity.index);
                        }
                    } else if a == p {
                        assert(left@[b] == before[b - 1]);
                        assert(before[p as int].index > entity.index);
                        if b - 1 > p {
                            assert(before[p as int].index <= before[b - 1].index);
                        }
                    } else {
                        assert(left@[a] == before[a - 1] && left@[b] == before[b - 1]);
                    }
                }
            }
        }
        i = i + 1;
    }
    proof {
        assert(scene@.take(scene@.len() as int) =~= scene@);
    }
    left
}

} // verus!
