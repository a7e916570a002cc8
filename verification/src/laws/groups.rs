//! Where images belong.

use crate::digest::{sha1_digest, short_hex};
use crate::grouping::{first_fault, group_id, listed_in, origin_text, placed, ruled,
    CompiledRule, GroupConfig, GroupConfigError, ImageModel, ManualGroupRaw, PlacementModel,
    RuleFault, RuleRaw};
use crate::path::{extension_of, file_name_of, sorted_texts, TextOrder};
use crate::pattern::{regex_captures, regex_groups};
use crate::schema::has_name;
use crate::text::{joined_texts, lowered};
use vstd::prelude::*;
use vstd::utf8::encode_utf8;

verus! {

/// What a rule captured of a name with its first group, if it did.
pub open spec fn captured_by(rule: CompiledRule, name: Seq<char>) -> Option<Seq<char>> {
    match regex_captures(rule.pattern@, name) {
        Some(c) => if c.len() > 1 {
            c[1]
        } else {
            None
        },
        None => None,
    }
}

proof fn the_first_listing_counts(groups: Seq<ManualGroupRaw>, from: int, k: int, name: Seq<char>)
    requires
        0 <= from <= k <= groups.len(),
        forall|i: int| from <= i < k ==> !has_name((#[trigger] groups[i]).members@, name),
        k < groups.len() ==> has_name(groups[k].members@, name),
    ensures
        listed_in(groups, from, name) == if k < groups.len() {
            Some(groups[k].id@)
        } else {
            None
        },
    decreases k - from,
{
    if from < k {
        the_first_listing_counts(groups, from + 1, k, name);
    }
}

proof fn the_first_rule_counts(rules: Seq<CompiledRule>, from: int, k: int, name: Seq<char>)
    requires
        0 <= from <= k <= rules.len(),
        forall|i: int| from <= i < k ==> captured_by(#[trigger] rules[i], name) is None,
        k < rules.len() ==> captured_by(rules[k], name) is Some,
    ensures
        ruled(rules, from, name) == if k < rules.len() {
            Some((rules[k].name@, captured_by(rules[k], name)->0))
        } else {
            None
        },
    decreases k - from,
{
    if from < k {
        the_first_rule_counts(rules, from + 1, k, name);
    }
}

/// Where an image belongs: it stands alone for its extension, whatever the case of that; or
/// else it is in the first group that lists its file name; or else in that of the first rule
/// whose first group takes part in a match of the file name; or else it stands alone.
pub proof fn images_are_placed_in_order(
    cfg: GroupConfig,
    path: Seq<char>,
    name: Seq<char>,
    listing: int,
    rule: int,
)
    requires
        file_name_of(path) == Some(name),
        0 <= listing <= cfg.manual_groups@.len(),
        forall|i: int|
            0 <= i < listing ==> !has_name((#[trigger] cfg.manual_groups@[i]).members@, name),
        listing < cfg.manual_groups@.len() ==> has_name(cfg.manual_groups@[listing].members@, name),
        0 <= rule <= cfg.rules@.len(),
        forall|i: int| 0 <= i < rule ==> captured_by(#[trigger] cfg.rules@[i], name) is None,
        rule < cfg.rules@.len() ==> captured_by(cfg.rules@[rule], name) is Some,
    ensures
        ({
            let ext = match extension_of(path) {
                Some(e) => lowered(e),
                None => Seq::empty(),
            };
            if has_name(cfg.solo_extensions@, ext) {
                placed(cfg, path) is Solo
            } else if listing < cfg.manual_groups@.len() {
                placed(cfg, path) == PlacementModel::Manual(cfg.manual_groups@[listing].id@)
            } else if rule < cfg.rules@.len() {
                placed(cfg, path) == PlacementModel::Rule(
                    cfg.rules@[rule].name@,
                    captured_by(cfg.rules@[rule], name)->0,
                )
            } else {
                placed(cfg, path) is DefaultSolo
            }
        }),
{
    the_first_listing_counts(cfg.manual_groups@, 0, listing, name);
    the_first_rule_counts(cfg.rules@, 0, rule, name);
    assert(lowered(Seq::<char>::empty()) =~= Seq::<char>::empty());
}

/// The name of a group: the one that it was listed under; or that of its only image; or the
/// hash of the names of its images, in order and with colons between them. What put the
/// group together is told.
pub proof fn groups_bear_names_and_origins(place: PlacementModel, members: Seq<ImageModel>)
    ensures
        place matches PlacementModel::Manual(id) ==> group_id(place, members) == id && origin_text(
            place,
        ) == "manual:"@ + id,
        !(place is Manual) && members.len() == 1 ==> group_id(place, members)
            == members[0].image_id,
        !(place is Manual) && members.len() > 1 ==> group_id(place, members) == short_hex(
            sha1_digest(
                encode_utf8(
                    joined_texts(
                        sorted_texts(
                            Seq::new(members.len(), |i: int| members[i].image_id),
                            TextOrder::Plain,
                        ),
                        ":"@,
                    ),
                ),
            ),
        ),
        place matches PlacementModel::Rule(name, _) ==> origin_text(place) == "rule:"@ + name,
        place is Solo ==> origin_text(place) == "solo"@,
        place is DefaultSolo ==> origin_text(place) == "default-solo"@,
{
}

/// A rule has to be valid and to have a group of its own besides the whole match; the first
/// one that is not tells what is wrong with a configuration.
pub proof fn the_first_faulty_rule_is_told(rules: Seq<RuleRaw>, from: int, k: int)
    requires
        0 <= from <= k <= rules.len(),
        forall|i: int|
            from <= i < k ==> regex_groups((#[trigger] rules[i]).pattern@) is Some && regex_groups(
                rules[i].pattern@,
            )->0 >= 2,
        k < rules.len() ==> regex_groups(rules[k].pattern@) is None || regex_groups(
            rules[k].pattern@,
        )->0 < 2,
    ensures
        k == rules.len() ==> first_fault(rules, from) is None,
        k < rules.len() ==> first_fault(rules, from) == Some(
            GroupConfigError {
                rule: k as usize,
                fault: if regex_groups(rules[k].pattern@) is None {
                    RuleFault::InvalidPattern
                } else {
                    RuleFault::NoCaptureGroup
                },
            },
        ),
    decreases k - from,
{
    if from < k {
        the_first_faulty_rule_is_told(rules, from + 1, k);
    }
}

} // verus!
