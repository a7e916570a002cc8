//! Putting the disks of one title together.
//!
//! A title often comes on several disks, such as `Dennou074A.img`,
//! `Dennou074B.img` and `Dennou074X.img`. Where each image belongs is decided in
//! this order:
//!
//! 1. Images with one of the `solo_extensions` stand alone.
//! 2. Images whose name a `manual_group` lists belong to that group.
//! 3. The first `rule` whose pattern matches the name gives the group: its first
//!    capture.
//! 4. All other images stand alone.

use crate::digest::{short_hash, short_hash_of};
use crate::path::{extension, extension_of, file_name, file_name_of, path_comes_first, path_le,
    sort_texts, sorted_texts, sorted_texts_are_in_order, text_order, text_orders_are_orders,
    TextOrder};
use crate::pattern::{captures, group, group_count, group_text, regex_captures,
    regex_groups};
use crate::schema::{has_name, is_named};
use crate::sort::{in_order, is_order, models, order_is_unique, order_of, sort, sorted_by,
    sorting_keeps_all, sorting_puts_in_order, Sortable};
use crate::text::{comes_first, join, joined_texts, lowered, same_text, text_le,
    text_order_is_total, text_order_is_transitive, texts, to_lower};
use vstd::prelude::*;
use vstd::string::StringExecFns;
use vstd::utf8::encode_utf8;

verus! {

/// A configuration as it was written.
#[derive(Debug)]
pub struct GroupConfigRaw {
    pub solo_extensions: Vec<String>,
    pub rules: Vec<RuleRaw>,
    pub manual_groups: Vec<ManualGroupRaw>,
}

/// A rule: a regular expression whose first capture names the group.
#[derive(Debug)]
pub struct RuleRaw {
    pub name: String,
    pub pattern: String,
}

/// A group whose images are listed by name.
#[derive(Debug)]
pub struct ManualGroupRaw {
    pub id: String,
    pub members: Vec<String>,
}

/// A configuration that can be used.
#[derive(Debug)]
pub struct GroupConfig {
    /// Extensions in lower case.
    pub solo_extensions: Vec<String>,
    pub rules: Vec<CompiledRule>,
    pub manual_groups: Vec<ManualGroupRaw>,
}

/// A rule with a valid regular expression that has a capture group.
#[derive(Debug)]
pub struct CompiledRule {
    pub name: String,
    pub pattern: String,
}

/// What is wrong with a rule.
#[derive(Clone, Copy, Debug, PartialEq, Eq, Structural)]
pub enum RuleFault {
    /// Its regular expression is not valid.
    InvalidPattern,
    /// Its regular expression has no capture group.
    NoCaptureGroup,
}

/// A configuration that cannot be used, for the fault of a rule.
#[derive(Clone, Copy, Debug, PartialEq, Eq, Structural)]
pub struct GroupConfigError {
    /// The number of the rule.
    pub rule: usize,
    pub fault: RuleFault,
}

/// What is wrong with an expression that has so many groups, the whole match
/// among them.
pub open spec fn fault_of(groups: Option<nat>) -> Option<RuleFault> {
    match groups {
        None => Some(RuleFault::InvalidPattern),
        Some(n) => if n < 2 {
            Some(RuleFault::NoCaptureGroup)
        } else {
            None
        },
    }
}

/// What is wrong with an expression that has so many groups.
pub fn rule_fault(groups: Option<usize>) -> (r: Option<RuleFault>)
    ensures
        r == fault_of(
            match groups {
                Some(n) => Some(n as nat),
                None => None,
            },
        ),
{
    match groups {
        None => Some(RuleFault::InvalidPattern),
        Some(n) => {
            if n < 2 {
                Some(RuleFault::NoCaptureGroup)
            } else {
                None
            }
        },
    }
}

/// The first rule from `i` on with a fault.
pub open spec fn first_fault(rules: Seq<RuleRaw>, i: int) -> Option<GroupConfigError>
    decreases rules.len() - i,
{
    if !(0 <= i < rules.len()) {
        None
    } else {
        match fault_of(regex_groups(rules[i].pattern@)) {
            Some(fault) => Some(GroupConfigError { rule: i as usize, fault }),
            None => first_fault(rules, i + 1),
        }
    }
}

impl GroupConfig {
    /// The configuration without rules: all images stand alone.
    pub fn empty() -> (r: Self)
        ensures
            r.solo_extensions@.len() == 0,
            r.rules@.len() == 0,
            r.manual_groups@.len() == 0,
    {
        GroupConfig {
            solo_extensions: Vec::new(),
            rules: Vec::new(),
            manual_groups: Vec::new(),
        }
    }

    /// Takes a configuration into use: checks the rules and puts the extensions in
    /// lower case.
    pub fn from_raw(raw: GroupConfigRaw) -> (r: Result<Self, GroupConfigError>)
        ensures
            match r {
                Ok(cfg) => {
                    &&& first_fault(raw.rules@, 0) is None
                    &&& cfg.rules@.len() == raw.rules@.len()
                    &&& forall|i: int|
                        #![trigger cfg.rules@[i]]
                        0 <= i < cfg.rules@.len() ==> cfg.rules@[i].name@ == raw.rules@[i].name@
                            && cfg.rules@[i].pattern@ == raw.rules@[i].pattern@
                    &&& cfg.solo_extensions@.len() == raw.solo_extensions@.len()
                    &&& forall|i: int|
                        #![trigger cfg.solo_extensions@[i]]
                        0 <= i < cfg.solo_extensions@.len() ==> cfg.solo_extensions@[i]@
                            == lowered(raw.solo_extensions@[i]@)
                    &&& cfg.manual_groups@ == raw.manual_groups@
                },
                Err(e) => first_fault(raw.rules@, 0) == Some(e),
            },
    {
        let mut rules: Vec<CompiledRule> = Vec::new();
        let mut i: usize = 0;
        while i < raw.rules.len()
            invariant
                i <= raw.rules@.len(),
                rules@.len() == i,
                first_fault(raw.rules@, 0) == first_fault(raw.rules@, i as int),
                forall|k: int|
                    #![trigger rules@[k]]
                    0 <= k < i ==> rules@[k].name@ == raw.rules@[k].name@ && rules@[k].pattern@
                        == raw.rules@[k].pattern@,
            decreases raw.rules@.len() - i,
        {
            let groups: Option<usize> = group_count(raw.rules[i].pattern.as_str());
            if let Some(fault) = rule_fault(groups) {
                return Err(GroupConfigError { rule: i, fault });
            }
            rules.push(
                CompiledRule {
                    name: raw.rules[i].name.clone(),
                    pattern: raw.rules[i].pattern.clone(),
                },
            );
            i = i + 1;
        }
        let mut solo_extensions: Vec<String> = Vec::new();
        let mut k: usize = 0;
        while k < raw.solo_extensions.len()
            invariant
                k <= raw.solo_extensions@.len(),
                solo_extensions@.len() == k,
                forall|j: int|
                    #![trigger solo_extensions@[j]]
                    0 <= j < k ==> solo_extensions@[j]@ == lowered(raw.solo_extensions@[j]@),
            decreases raw.solo_extensions@.len() - k,
        {
            solo_extensions.push(to_lower(raw.solo_extensions[k].as_str()));
            k = k + 1;
        }
        Ok(GroupConfig { solo_extensions, rules, manual_groups: raw.manual_groups })
    }
}

/// An image with its name in the index.
pub struct ImageFile {
    pub path: String,
    pub image_id: String,
}

/// An image as a mathematical value.
pub struct ImageModel {
    pub path: Seq<char>,
    pub image_id: Seq<char>,
}

impl View for ImageFile {
    type V = ImageModel;

    open spec fn view(&self) -> ImageModel {
        ImageModel { path: self.path@, image_id: self.image_id@ }
    }
}

/// Images as mathematical values.
pub open spec fn image_models(v: Seq<ImageFile>) -> Seq<ImageModel> {
    Seq::new(v.len(), |i: int| v[i]@)
}

/// Where an image belongs.
pub enum Placement {
    /// It stands alone, for its extension.
    Solo,
    /// It is listed in the group with this name.
    Manual(String),
    /// A rule put it into a group: the name of the rule and what it captured.
    Rule(String, String),
    /// It stands alone, for want of a rule.
    DefaultSolo,
}

/// Where an image belongs, as a mathematical value.
pub enum PlacementModel {
    Solo,
    Manual(Seq<char>),
    Rule(Seq<char>, Seq<char>),
    DefaultSolo,
}

impl View for Placement {
    type V = PlacementModel;

    open spec fn view(&self) -> PlacementModel {
        match *self {
            Placement::Solo => PlacementModel::Solo,
            Placement::Manual(id) => PlacementModel::Manual(id@),
            Placement::Rule(name, key) => PlacementModel::Rule(name@, key@),
            Placement::DefaultSolo => PlacementModel::DefaultSolo,
        }
    }
}

/// Placements as mathematical values.
pub open spec fn placement_models(v: Seq<Placement>) -> Seq<PlacementModel> {
    Seq::new(v.len(), |i: int| v[i]@)
}

/// The key of the group that an image belongs to.
pub open spec fn group_key(place: PlacementModel, path: Seq<char>) -> Seq<char> {
    match place {
        PlacementModel::Solo => "solo:"@ + path,
        PlacementModel::Manual(id) => "manual:"@ + id,
        PlacementModel::Rule(_, key) => "rule:"@ + key,
        PlacementModel::DefaultSolo => "default-solo:"@ + path,
    }
}

/// What put an image into its group.
pub open spec fn origin_text(place: PlacementModel) -> Seq<char> {
    match place {
        PlacementModel::Solo => "solo"@,
        PlacementModel::Manual(id) => "manual:"@ + id,
        PlacementModel::Rule(name, _) => "rule:"@ + name,
        PlacementModel::DefaultSolo => "default-solo"@,
    }
}

/// The first group from `i` on that lists a name.
pub open spec fn listed_in(groups: Seq<ManualGroupRaw>, i: int, name: Seq<char>) -> Option<
    Seq<char>,
>
    decreases groups.len() - i,
{
    if !(0 <= i < groups.len()) {
        None
    } else if has_name(groups[i].members@, name) {
        Some(groups[i].id@)
    } else {
        listed_in(groups, i + 1, name)
    }
}

/// The first rule from `i` on that matches a name, and what its first group
/// captured.
pub open spec fn ruled(rules: Seq<CompiledRule>, i: int, name: Seq<char>) -> Option<
    (Seq<char>, Seq<char>),
>
    decreases rules.len() - i,
{
    if !(0 <= i < rules.len()) {
        None
    } else {
        match group_text(regex_captures(rules[i].pattern@, name), 1) {
            Some(key) => Some((rules[i].name@, key)),
            None => ruled(rules, i + 1, name),
        }
    }
}

/// A text, or the empty one in place of none.
pub open spec fn text_or_empty(o: Option<Seq<char>>) -> Seq<char> {
    match o {
        Some(s) => s,
        None => Seq::empty(),
    }
}

/// Where an image belongs under a configuration.
pub open spec fn placed(cfg: GroupConfig, path: Seq<char>) -> PlacementModel {
    let name = text_or_empty(file_name_of(path));
    let ext = lowered(text_or_empty(extension_of(path)));
    if has_name(cfg.solo_extensions@, ext) {
        PlacementModel::Solo
    } else if file_name_of(path) is Some && listed_in(cfg.manual_groups@, 0, name) is Some {
        PlacementModel::Manual(listed_in(cfg.manual_groups@, 0, name)->0)
    } else {
        match ruled(cfg.rules@, 0, name) {
            Some((rule, key)) => PlacementModel::Rule(rule, key),
            None => PlacementModel::DefaultSolo,
        }
    }
}

fn find_listing(groups: &Vec<ManualGroupRaw>, name: &str) -> (r: Option<String>)
    ensures
        match r {
            Some(id) => listed_in(groups@, 0, name@) == Some(id@),
            None => listed_in(groups@, 0, name@) is None,
        },
{
    let mut i: usize = 0;
    while i < groups.len()
        invariant
            i <= groups@.len(),
            listed_in(groups@, 0, name@) == listed_in(groups@, i as int, name@),
        decreases groups@.len() - i,
    {
        if is_named(&groups[i].members, name) {
            return Some(groups[i].id.clone());
        }
        i = i + 1;
    }
    None
}

fn find_rule(rules: &Vec<CompiledRule>, name: &str) -> (r: Option<(String, String)>)
    ensures
        match r {
            Some(pair) => ruled(rules@, 0, name@) == Some((pair.0@, pair.1@)),
            None => ruled(rules@, 0, name@) is None,
        },
{
    let mut i: usize = 0;
    while i < rules.len()
        invariant
            i <= rules@.len(),
            ruled(rules@, 0, name@) == ruled(rules@, i as int, name@),
        decreases rules@.len() - i,
    {
        let found: Option<Vec<Option<String>>> = captures(rules[i].pattern.as_str(), name);
        if let Some(key) = group(&found, 1) {
            return Some((rules[i].name.clone(), key));
        }
        i = i + 1;
    }
    None
}

/// Decides where an image belongs.
pub fn place_image(cfg: &GroupConfig, path: &str) -> (r: Placement)
    ensures
        r@ == placed(*cfg, path@),
{
    let file: Option<String> = file_name(path);
    let ext: String = match extension(path) {
        Some(e) => to_lower(e.as_str()),
        None => String::new(),
    };
    assert(ext@ =~= lowered(text_or_empty(extension_of(path@))));
    if is_named(&cfg.solo_extensions, ext.as_str()) {
        return Placement::Solo;
    }
    let name: String = match file {
        Some(n) => {
            if let Some(id) = find_listing(&cfg.manual_groups, n.as_str()) {
                return Placement::Manual(id);
            }
            n
        },
        None => String::new(),
    };
    assert(name@ =~= text_or_empty(file_name_of(path@)));
    match find_rule(&cfg.rules, name.as_str()) {
        Some((rule, key)) => Placement::Rule(rule, key),
        None => Placement::DefaultSolo,
    }
}

/// Images that belong together: one or several.
#[derive(Debug)]
pub struct ResolvedGroup {
    /// The name of the group: for a listed group the one that was given to it,
    /// otherwise that of its only image, or a hash of the names of its images.
    pub id: String,
    /// What put the images into the group: `solo`, `manual:<id>`, `rule:<name>` or
    /// `default-solo`.
    pub origin: String,
    /// The paths of the images, in order.
    pub members: Vec<String>,
}

/// A group as a mathematical value.
pub struct GroupModel {
    pub id: Seq<char>,
    pub origin: Seq<char>,
    pub members: Seq<Seq<char>>,
}

impl View for ResolvedGroup {
    type V = GroupModel;

    open spec fn view(&self) -> GroupModel {
        GroupModel { id: self.id@, origin: self.origin@, members: texts(self.members@) }
    }
}

impl ResolvedGroup {
    /// Whether the group is a single image.
    pub fn is_solo(&self) -> (r: bool)
        ensures
            r == (self@.members.len() == 1),
    {
        self.members.len() == 1
    }
}

/// The key of the `i`th image.
pub open spec fn key_at(images: Seq<ImageModel>, places: Seq<PlacementModel>, i: int) -> Seq<char> {
    group_key(places[i], images[i].path)
}

/// Whether a placement is for one image only.
pub open spec fn stands_alone(place: PlacementModel) -> bool {
    place is Solo || place is DefaultSolo
}

/// Of the first `n` images, those with a key. An image that stands alone counts
/// once, however often it is given.
pub open spec fn with_key(
    images: Seq<ImageModel>,
    places: Seq<PlacementModel>,
    key: Seq<char>,
    n: int,
) -> Seq<ImageModel>
    decreases n,
{
    if n <= 0 {
        Seq::empty()
    } else {
        let before = with_key(images, places, key, n - 1);
        if key_at(images, places, n - 1) == key && (before.len() == 0 || !stands_alone(
            places[n - 1],
        )) {
            before.push(images[n - 1])
        } else {
            before
        }
    }
}

/// The placement of the first image, among the first `n`, with a key.
pub open spec fn first_place(
    images: Seq<ImageModel>,
    places: Seq<PlacementModel>,
    key: Seq<char>,
    n: int,
) -> Option<PlacementModel>
    decreases n,
{
    if n <= 0 {
        None
    } else {
        match first_place(images, places, key, n - 1) {
            Some(p) => Some(p),
            None => if key_at(images, places, n - 1) == key {
                Some(places[n - 1])
            } else {
                None
            },
        }
    }
}

/// The order of images: that of their paths.
pub open spec fn by_path() -> spec_fn(ImageModel, ImageModel) -> bool {
    |a: ImageModel, b: ImageModel| path_le(a.path, b.path)
}

/// The names of images.
pub open spec fn ids_of(members: Seq<ImageModel>) -> Seq<Seq<char>> {
    Seq::new(members.len(), |i: int| members[i].image_id)
}

/// The paths of images.
pub open spec fn paths_of(members: Seq<ImageModel>) -> Seq<Seq<char>> {
    Seq::new(members.len(), |i: int| members[i].path)
}

/// The name that several images have together: a hash of their names in order.
pub open spec fn shared_id(ids: Seq<Seq<char>>) -> Seq<char> {
    short_hash(encode_utf8(joined_texts(sorted_texts(ids, TextOrder::Plain), ":"@)))
}

/// The name of a group.
pub open spec fn group_id(place: PlacementModel, members: Seq<ImageModel>) -> Seq<char> {
    match place {
        PlacementModel::Manual(id) => id,
        _ => if members.len() == 1 {
            members[0].image_id
        } else {
            shared_id(ids_of(members))
        },
    }
}

/// The group that has a key.
pub open spec fn group_with_key(
    images: Seq<ImageModel>,
    places: Seq<PlacementModel>,
    key: Seq<char>,
) -> GroupModel {
    let members = sorted_by(with_key(images, places, key, images.len() as int), by_path());
    let place = first_place(images, places, key, images.len() as int)->0;
    GroupModel {
        id: group_id(place, members),
        origin: origin_text(place),
        members: paths_of(members),
    }
}

/// Whether keys are in ascending order, each once.
pub open spec fn ascending(keys: Seq<Seq<char>>) -> bool {
    forall|i: int, j: int|
        0 <= i < j < keys.len() ==> text_le(#[trigger] keys[i], #[trigger] keys[j]) && keys[i]
            != keys[j]
}

/// Whether a key is that of one of the first `n` images.
pub open spec fn is_key(
    images: Seq<ImageModel>,
    places: Seq<PlacementModel>,
    key: Seq<char>,
    n: int,
) -> bool {
    exists|i: int| 0 <= i < n && #[trigger] key_at(images, places, i) == key
}

/// Whether keys are those of the first `n` images, in ascending order.
pub open spec fn are_keys(
    keys: Seq<Seq<char>>,
    images: Seq<ImageModel>,
    places: Seq<PlacementModel>,
    n: int,
) -> bool {
    &&& ascending(keys)
    &&& forall|j: int| 0 <= j < keys.len() ==> is_key(images, places, #[trigger] keys[j], n)
    &&& forall|i: int| 0 <= i < n ==> keys.contains(#[trigger] key_at(images, places, i))
}

/// Whether groups are those of some images: one for each key, in the order of the
/// keys.
pub open spec fn are_groups(
    groups: Seq<GroupModel>,
    images: Seq<ImageModel>,
    places: Seq<PlacementModel>,
) -> bool {
    exists|keys: Seq<Seq<char>>|
        {
            &&& #[trigger] are_keys(keys, images, places, images.len() as int)
            &&& groups =~= Seq::new(
                keys.len(),
                |j: int| group_with_key(images, places, keys[j]),
            )
        }
}

/// Groups as mathematical values.
pub open spec fn group_models(v: Seq<ResolvedGroup>) -> Seq<GroupModel> {
    Seq::new(v.len(), |i: int| v[i]@)
}

impl Sortable for ImageFile {
    type Model = ImageModel;

    type Order = TextOrder;

    open spec fn model(&self) -> ImageModel {
        self@
    }

    open spec fn may_precede(order: TextOrder, a: ImageModel, b: ImageModel) -> bool {
        match order {
            TextOrder::Plain => text_le(a.path, b.path),
            TextOrder::Path => path_le(a.path, b.path),
        }
    }

    fn precedes(&self, other: &Self, order: &TextOrder) -> (r: bool) {
        match order {
            TextOrder::Plain => comes_first(self.path.as_str(), other.path.as_str()),
            TextOrder::Path => path_comes_first(self.path.as_str(), other.path.as_str()),
        }
    }
}

/// A group that is being filled.
struct Bucket {
    key: String,
    place: Placement,
    members: Vec<ImageFile>,
}

spec fn bucket_keys(v: Seq<Bucket>) -> Seq<Seq<char>> {
    Seq::new(v.len(), |i: int| v[i].key@)
}

spec fn bucket_is_full(
    b: Bucket,
    images: Seq<ImageModel>,
    places: Seq<PlacementModel>,
    n: int,
) -> bool {
    &&& first_place(images, places, b.key@, n) == Some(b.place@)
    &&& image_models(b.members@) == with_key(images, places, b.key@, n)
}

fn key_text(place: &Placement, path: &str) -> (r: String)
    ensures
        r@ == group_key(place@, path@),
{
    let mut out: String = match place {
        Placement::Solo => "solo:".to_owned(),
        Placement::Manual(_) => "manual:".to_owned(),
        Placement::Rule(_, _) => "rule:".to_owned(),
        Placement::DefaultSolo => "default-solo:".to_owned(),
    };
    match place {
        Placement::Manual(id) => out.append(id.as_str()),
        Placement::Rule(_, key) => out.append(key.as_str()),
        _ => out.append(path),
    }
    out
}

fn origin_of(place: &Placement) -> (r: String)
    ensures
        r@ == origin_text(place@),
{
    match place {
        Placement::Solo => "solo".to_owned(),
        Placement::Manual(id) => {
            let mut out: String = "manual:".to_owned();
            out.append(id.as_str());
            out
        },
        Placement::Rule(name, _) => {
            let mut out: String = "rule:".to_owned();
            out.append(name.as_str());
            out
        },
        Placement::DefaultSolo => "default-solo".to_owned(),
    }
}

fn copy_place(place: &Placement) -> (r: Placement)
    ensures
        r@ == place@,
{
    match place {
        Placement::Solo => Placement::Solo,
        Placement::Manual(id) => Placement::Manual(id.clone()),
        Placement::Rule(name, key) => Placement::Rule(name.clone(), key.clone()),
        Placement::DefaultSolo => Placement::DefaultSolo,
    }
}

fn copy_image(image: &ImageFile) -> (r: ImageFile)
    ensures
        r@ == image@,
{
    ImageFile { path: image.path.clone(), image_id: image.image_id.clone() }
}

/// The place of the first bucket whose key does not come before `key`.
fn bucket_place(buckets: &Vec<Bucket>, key: &str) -> (r: usize)
    ensures
        r <= buckets@.len(),
        forall|i: int|
            0 <= i < r ==> text_le(#[trigger] bucket_keys(buckets@)[i], key@) && bucket_keys(
                buckets@,
            )[i] != key@,
        r < buckets@.len() ==> text_le(key@, bucket_keys(buckets@)[r as int]),
{
    let mut i: usize = 0;
    while i < buckets.len() && !comes_first(key, buckets[i].key.as_str())
        invariant
            i <= buckets@.len(),
            forall|k: int|
                0 <= k < i ==> text_le(#[trigger] bucket_keys(buckets@)[k], key@) && bucket_keys(
                    buckets@,
                )[k] != key@,
        decreases buckets@.len() - i,
    {
        proof {
            text_order_is_total(key@, buckets@[i as int].key@);
            assert(bucket_keys(buckets@)[i as int] == buckets@[i as int].key@);
            if bucket_keys(buckets@)[i as int] == key@ {
                text_order_is_total(key@, key@);
            }
        }
        i = i + 1;
    }
    i
}

/// Puts the `n`th image into its bucket.
fn fill_bucket(
    buckets: &mut Vec<Bucket>,
    images: &Vec<ImageFile>,
    places: &Vec<Placement>,
    n: usize,
)
    requires
        n < images@.len(),
        images@.len() == places@.len(),
        are_keys(
            bucket_keys(old(buckets)@),
            image_models(images@),
            placement_models(places@),
            n as int,
        ),
        forall|j: int|
            0 <= j < old(buckets)@.len() ==> bucket_is_full(
                #[trigger] old(buckets)@[j],
                image_models(images@),
                placement_models(places@),
                n as int,
            ),
    ensures
        are_keys(
            bucket_keys(final(buckets)@),
            image_models(images@),
            placement_models(places@),
            n + 1,
        ),
        forall|j: int|
            0 <= j < final(buckets)@.len() ==> bucket_is_full(
                #[trigger] final(buckets)@[j],
                image_models(images@),
                placement_models(places@),
                n + 1,
            ),
{
    let ghost im = image_models(images@);
    let ghost pl = placement_models(places@);
    let ghost before = buckets@;
    let ghost keys = bucket_keys(before);
    let key: String = key_text(&places[n], images[n].path.as_str());
    assert(key@ == key_at(im, pl, n as int));
    let at: usize = bucket_place(buckets, key.as_str());
    proof {
        // A key that sorts after the place cannot be the new one.
        assert forall|j: int| at < j < before.len() implies keys[j] != key@ by {
            if keys[j] == key@ {
                assert(text_le(keys[at as int], keys[j]) && keys[at as int] != keys[j]);
                text_order_is_total(keys[at as int], keys[j]);
            }
        }
    }
    if at < buckets.len() && same_text(buckets[at].key.as_str(), key.as_str()) {
        let mut bucket: Bucket = buckets.remove(at);
        assert(bucket == before[at as int]);
        let alone: bool = match &places[n] {
            Placement::Solo => true,
            Placement::DefaultSolo => true,
            _ => false,
        };
        if bucket.members.len() == 0 || !alone {
            let ghost had = image_models(bucket.members@);
            let image: ImageFile = copy_image(&images[n]);
            bucket.members.push(image);
            assert(image_models(bucket.members@) =~= had.push(im[n as int]));
        }
        assert(bucket_is_full(bucket, im, pl, n + 1));
        let ghost changed = bucket;
        buckets.insert(at, bucket);
        assert(buckets@ =~= before.update(at as int, changed));
        proof {
            assert(bucket_keys(buckets@) =~= keys);
            assert forall|j: int| 0 <= j < buckets@.len() implies bucket_is_full(
                #[trigger] buckets@[j],
                im,
                pl,
                n + 1,
            ) by {
                if j != at {
                    assert(buckets@[j] == before[j]);
                    assert(keys[j] != key@);
                }
            }
            assert forall|j: int| 0 <= j < keys.len() implies is_key(
                im,
                pl,
                #[trigger] keys[j],
                n + 1,
            ) by {
                assert(is_key(im, pl, keys[j], n as int));
            }
            assert forall|i: int| 0 <= i < n + 1 implies keys.contains(
                #[trigger] key_at(im, pl, i),
            ) by {
                if i == n {
                    assert(keys[at as int] == key@);
                }
            }
        }
    } else {
        let mut members: Vec<ImageFile> = Vec::new();
        let image: ImageFile = copy_image(&images[n]);
        members.push(image);
        let bucket = Bucket { key, place: copy_place(&places[n]), members };
        let ghost added = bucket;
        buckets.insert(at, bucket);
        assert(buckets@ =~= before.insert(at as int, added));
        proof {
            let now = bucket_keys(buckets@);
            assert(now =~= keys.insert(at as int, added.key@));
            assert(!is_key(im, pl, added.key@, n as int)) by {
                if is_key(im, pl, added.key@, n as int) {
                    let i = choose|i: int|
                        0 <= i < n && #[trigger] key_at(im, pl, i) == added.key@;
                    assert(keys.contains(key_at(im, pl, i)));
                    let j = choose|j: int| 0 <= j < keys.len() && keys[j] == added.key@;
                    assert(keys[j] == before[j].key@);
                }
            }
            no_image_without_key(im, pl, added.key@, n as int);
            assert(image_models(added.members@) =~= seq![im[n as int]]);
            assert(with_key(im, pl, added.key@, n + 1) =~= seq![im[n as int]]);
            assert(bucket_is_full(added, im, pl, n + 1));
            assert forall|j: int| 0 <= j < buckets@.len() implies bucket_is_full(
                #[trigger] buckets@[j],
                im,
                pl,
                n + 1,
            ) by {
                if j != at {
                    let k = if j < at {
                        j
                    } else {
                        j - 1
                    };
                    assert(buckets@[j] == before[k]);
                    assert(bucket_is_full(before[k], im, pl, n as int));
                    assert(is_key(im, pl, keys[k], n as int));
                    assert(before[k].key@ == keys[k]);
                    assert(keys[k] != added.key@);
                }
            }
            assert forall|j: int| 0 <= j < now.len() implies is_key(
                im,
                pl,
                #[trigger] now[j],
                n + 1,
            ) by {
                if j == at {
                    assert(key_at(im, pl, n as int) == now[j]);
                } else {
                    let k = if j < at {
                        j
                    } else {
                        j - 1
                    };
                    assert(now[j] == keys[k]);
                    assert(is_key(im, pl, keys[k], n as int));
                }
            }
            assert forall|i: int| 0 <= i < n + 1 implies now.contains(
                #[trigger] key_at(im, pl, i),
            ) by {
                if i == n {
                    assert(now[at as int] == key_at(im, pl, i));
                } else {
                    assert(keys.contains(key_at(im, pl, i)));
                    let k = choose|k: int| 0 <= k < keys.len() && keys[k] == key_at(im, pl, i);
                    let j = if k < at {
                        k
                    } else {
                        k + 1
                    };
                    assert(now[j] == keys[k]);
                }
            }
            assert(ascending(now)) by {
                assert forall|i: int, j: int| 0 <= i < j < now.len() implies text_le(
                    #[trigger] now[i],
                    #[trigger] now[j],
                ) && now[i] != now[j] by {
                    let a = if i < at {
                        i
                    } else {
                        i - 1
                    };
                    let b = if j < at {
                        j
                    } else {
                        j - 1
                    };
                    if i == at {
                        assert(now[j] == keys[b]);
                        assert(text_le(added.key@, keys[at as int]));
                        if b > at {
                            assert(text_le(keys[at as int], keys[b]));
                            text_order_is_transitive(added.key@, keys[at as int], keys[b]);
                        }
                        assert(keys[b] == before[b].key@);
                    } else if j == at {
                        assert(now[i] == keys[a]);
                    } else {
                        assert(now[i] == keys[a] && now[j] == keys[b]);
                    }
                }
            }
        }
    }
}

proof fn no_image_without_key(
    images: Seq<ImageModel>,
    places: Seq<PlacementModel>,
    key: Seq<char>,
    n: int,
)
    requires
        !is_key(images, places, key, n),
    ensures
        with_key(images, places, key, n) == Seq::<ImageModel>::empty(),
        first_place(images, places, key, n) is None,
    decreases n,
{
    if n > 0 {
        assert(key_at(images, places, n - 1) != key);
        assert(!is_key(images, places, key, n - 1)) by {
            if is_key(images, places, key, n - 1) {
                let i = choose|i: int|
                    0 <= i < n - 1 && #[trigger] key_at(images, places, i) == key;
                assert(key_at(images, places, i) == key);
            }
        }
        no_image_without_key(images, places, key, n - 1);
    }
}

/// The name of a group.
fn name_group(place: &Placement, members: &Vec<ImageFile>) -> (r: String)
    ensures
        r@ == group_id(place@, image_models(members@)),
{
    if let Placement::Manual(id) = place {
        return id.clone();
    }
    if members.len() == 1 {
        return members[0].image_id.clone();
    }
    let mut ids: Vec<String> = Vec::new();
    let mut i: usize = 0;
    while i < members.len()
        invariant
            i <= members@.len(),
            texts(ids@) =~= ids_of(image_models(members@)).take(i as int),
        decreases members@.len() - i,
    {
        let ghost before = texts(ids@);
        let id: String = members[i].image_id.clone();
        ids.push(id);
        assert(texts(ids@) =~= before.push(id@));
        i = i + 1;
    }
    assert(texts(ids@) =~= ids_of(image_models(members@)));
    let sorted: Vec<String> = sort_texts(ids, TextOrder::Plain);
    let joined: String = join(sorted.as_slice(), ":");
    short_hash_of(joined.as_str().as_bytes())
}

/// Puts images together whose places are known.
pub fn form_groups(images: &Vec<ImageFile>, places: &Vec<Placement>) -> (r: Vec<ResolvedGroup>)
    requires
        images@.len() == places@.len(),
    ensures
        are_groups(group_models(r@), image_models(images@), placement_models(places@)),
{
    let ghost im = image_models(images@);
    let ghost pl = placement_models(places@);
    let mut buckets: Vec<Bucket> = Vec::new();
    let mut n: usize = 0;
    while n < images.len()
        invariant
            n <= images@.len(),
            images@.len() == places@.len(),
            im == image_models(images@),
            pl == placement_models(places@),
            are_keys(bucket_keys(buckets@), im, pl, n as int),
            forall|j: int|
                0 <= j < buckets@.len() ==> bucket_is_full(
                    #[trigger] buckets@[j],
                    im,
                    pl,
                    n as int,
                ),
        decreases images@.len() - n,
    {
        fill_bucket(&mut buckets, images, places, n);
        n = n + 1;
    }
    let ghost full = buckets@;
    let ghost keys = bucket_keys(full);
    let mut out: Vec<ResolvedGroup> = Vec::new();
    while buckets.len() > 0
        invariant
            im == image_models(images@),
            pl == placement_models(places@),
            keys == bucket_keys(full),
            out@.len() + buckets@.len() == full.len(),
            buckets@ == full.skip(out@.len() as int),
            forall|j: int|
                0 <= j < full.len() ==> bucket_is_full(
                    #[trigger] full[j],
                    im,
                    pl,
                    images@.len() as int,
                ),
            forall|j: int|
                0 <= j < out@.len() ==> (#[trigger] out@[j])@ == group_with_key(im, pl, keys[j]),
        decreases buckets@.len(),
    {
        let ghost k = out@.len() as int;
        let bucket: Bucket = buckets.remove(0);
        assert(bucket == full[k]);
        assert(bucket_is_full(full[k], im, pl, images@.len() as int));
        assert(buckets@ =~= full.skip(k + 1));
        let place = bucket.place;
        let members: Vec<ImageFile> = sort(bucket.members, &TextOrder::Path);
        proof {
            assert(models(bucket.members@) =~= image_models(bucket.members@));
            assert(models(members@) =~= image_models(members@));
            assert(order_of::<ImageFile>(TextOrder::Path) =~= by_path());
        }
        let id: String = name_group(&place, &members);
        let origin: String = origin_of(&place);
        let paths: Vec<String> = member_paths(&members);
        let group = ResolvedGroup { id, origin, members: paths };
        out.push(group);
        assert(group@ == group_with_key(im, pl, keys[k]));
    }
    assert(are_keys(keys, im, pl, im.len() as int));
    assert(group_models(out@) =~= Seq::new(
        keys.len(),
        |j: int| group_with_key(im, pl, keys[j]),
    ));
    out
}

fn member_paths(members: &Vec<ImageFile>) -> (r: Vec<String>)
    ensures
        texts(r@) == paths_of(image_models(members@)),
{
    let mut out: Vec<String> = Vec::new();
    let mut i: usize = 0;
    while i < members.len()
        invariant
            i <= members@.len(),
            texts(out@) =~= paths_of(image_models(members@)).take(i as int),
        decreases members@.len() - i,
    {
        let ghost before = texts(out@);
        let path: String = members[i].path.clone();
        out.push(path);
        assert(texts(out@) =~= before.push(path@));
        i = i + 1;
    }
    assert(texts(out@) =~= paths_of(image_models(members@)));
    out
}

/// Where images belong under a configuration.
pub open spec fn all_placed(cfg: GroupConfig, images: Seq<ImageModel>) -> Seq<PlacementModel> {
    Seq::new(images.len(), |i: int| placed(cfg, images[i].path))
}

/// Puts images together under a configuration. The groups come in the order of
/// their keys.
pub fn resolve_groups(images: &Vec<ImageFile>, cfg: &GroupConfig) -> (r: Vec<ResolvedGroup>)
    ensures
        are_groups(
            group_models(r@),
            image_models(images@),
            all_placed(*cfg, image_models(images@)),
        ),
{
    let ghost im = image_models(images@);
    let mut places: Vec<Placement> = Vec::new();
    let mut i: usize = 0;
    while i < images.len()
        invariant
            i <= images@.len(),
            im == image_models(images@),
            placement_models(places@) =~= all_placed(*cfg, im).take(i as int),
        decreases images@.len() - i,
    {
        let ghost before = placement_models(places@);
        let place: Placement = place_image(cfg, images[i].path.as_str());
        places.push(place);
        assert(placement_models(places@) =~= before.push(place@));
        i = i + 1;
    }
    assert(placement_models(places@) =~= all_placed(*cfg, im));
    form_groups(images, &places)
}

/// Keys tell what kind of group they are for, and what follows their mark.
proof fn keys_are_marked(p: PlacementModel, a: Seq<char>, q: PlacementModel, b: Seq<char>)
    requires
        group_key(p, a) == group_key(q, b),
    ensures
        stands_alone(p) ==> p == q && a == b,
        p is Manual ==> p == q,
{
    reveal_strlit("solo:");
    reveal_strlit("manual:");
    reveal_strlit("rule:");
    reveal_strlit("default-solo:");
    let k = group_key(p, a);
    assert(p is Solo ==> k[0] == 's' && k.skip(5) =~= a);
    assert(p is DefaultSolo ==> k[0] == 'd' && k.skip(13) =~= a);
    assert(p is Rule ==> k[0] == 'r');
    assert(q is Solo ==> k[0] == 's' && k.skip(5) =~= b);
    assert(q is DefaultSolo ==> k[0] == 'd' && k.skip(13) =~= b);
    assert(q is Rule ==> k[0] == 'r');
    assert(p is Manual ==> k[0] == 'm' && k.skip(7) =~= p->Manual_0);
    assert(q is Manual ==> k[0] == 'm' && k.skip(7) =~= q->Manual_0);
}

/// Whether `x` is one of the first `n` images and has a key.
spec fn is_among(
    images: Seq<ImageModel>,
    places: Seq<PlacementModel>,
    key: Seq<char>,
    n: int,
    x: ImageModel,
) -> bool {
    exists|m: int| 0 <= m < n && #[trigger] key_at(images, places, m) == key && images[m] == x
}

proof fn members_have_key(
    images: Seq<ImageModel>,
    places: Seq<PlacementModel>,
    key: Seq<char>,
    n: int,
)
    requires
        0 <= n <= images.len(),
    ensures
        forall|k: int|
            0 <= k < with_key(images, places, key, n).len() ==> is_among(
                images,
                places,
                key,
                n,
                #[trigger] with_key(images, places, key, n)[k],
            ),
    decreases n,
{
    if n > 0 {
        members_have_key(images, places, key, n - 1);
        let before = with_key(images, places, key, n - 1);
        let now = with_key(images, places, key, n);
        assert forall|k: int| 0 <= k < now.len() implies is_among(
            images,
            places,
            key,
            n,
            #[trigger] now[k],
        ) by {
            if k < before.len() {
                assert(now[k] == before[k]);
                assert(is_among(images, places, key, n - 1, before[k]));
                let m = choose|m: int|
                    0 <= m < n - 1 && #[trigger] key_at(images, places, m) == key && images[m]
                        == before[k];
                assert(key_at(images, places, m) == key);
            } else {
                assert(key_at(images, places, n - 1) == key && images[n - 1] == now[k]);
            }
        }
    }
}

proof fn image_is_with_its_key(
    images: Seq<ImageModel>,
    places: Seq<PlacementModel>,
    i: int,
    n: int,
)
    requires
        0 <= i < n <= images.len(),
    ensures
        ({
            let members = with_key(images, places, key_at(images, places, i), n);
            exists|k: int| 0 <= k < members.len() && (#[trigger] members[k]).path == images[i].path
        }),
    decreases n,
{
    let key = key_at(images, places, i);
    let before = with_key(images, places, key, n - 1);
    let members = with_key(images, places, key, n);
    if i < n - 1 {
        image_is_with_its_key(images, places, i, n - 1);
        let k = choose|k: int| 0 <= k < before.len() && (#[trigger] before[k]).path
            == images[i].path;
        assert(members[k].path == images[i].path);
    } else if before.len() == 0 || !stands_alone(places[i]) {
        assert(members[before.len() as int].path == images[i].path);
    } else {
        members_have_key(images, places, key, n - 1);
        assert(is_among(images, places, key, n - 1, before[0]));
        let m = choose|m: int|
            0 <= m < n - 1 && #[trigger] key_at(images, places, m) == key && images[m] == before[0];
        keys_are_marked(places[i], images[i].path, places[m], images[m].path);
        assert(members[0].path == images[i].path);
    }
}

proof fn sorted_members_are_members(members: Seq<ImageModel>, path: Seq<char>)
    ensures
        paths_of(sorted_by(members, by_path())).contains(path) <==> paths_of(members).contains(
            path,
        ),
{
    broadcast use vstd::seq_lib::group_to_multiset_ensures;

    let sorted = sorted_by(members, by_path());
    sorting_keeps_all(members, by_path());
    if paths_of(members).contains(path) {
        let k = choose|k: int| 0 <= k < members.len() && paths_of(members)[k] == path;
        assert(members.contains(members[k]));
        assert(sorted.to_multiset().contains(members[k]));
        assert(sorted.contains(members[k]));
        let j = choose|j: int| 0 <= j < sorted.len() && sorted[j] == members[k];
        assert(paths_of(sorted)[j] == path);
    }
    if paths_of(sorted).contains(path) {
        let k = choose|k: int| 0 <= k < sorted.len() && paths_of(sorted)[k] == path;
        assert(sorted.contains(sorted[k]));
        assert(members.to_multiset().contains(sorted[k]));
        assert(members.contains(sorted[k]));
        let j = choose|j: int| 0 <= j < members.len() && members[j] == sorted[k];
        assert(paths_of(members)[j] == path);
    }
}

/// Every image is in one group, and in no other.
pub proof fn every_image_is_in_one_group(
    groups: Seq<GroupModel>,
    cfg: GroupConfig,
    images: Seq<ImageModel>,
    i: int,
)
    requires
        are_groups(groups, images, all_placed(cfg, images)),
        0 <= i < images.len(),
    ensures
        exists|j: int|
            0 <= j < groups.len() && (#[trigger] groups[j]).members.contains(images[i].path),
        forall|j: int, k: int|
            #![trigger groups[j], groups[k]]
            0 <= j < groups.len() && 0 <= k < groups.len() && groups[j].members.contains(
                images[i].path,
            ) && groups[k].members.contains(images[i].path) ==> j == k,
{
    let places = all_placed(cfg, images);
    let n = images.len() as int;
    let keys = choose|keys: Seq<Seq<char>>|
        {
            &&& #[trigger] are_keys(keys, images, places, n)
            &&& groups =~= Seq::new(
                keys.len(),
                |j: int| group_with_key(images, places, keys[j]),
            )
        };
    let key = key_at(images, places, i);
    assert(keys.contains(key));
    let j = choose|j: int| 0 <= j < keys.len() && keys[j] == key;
    image_is_with_its_key(images, places, i, n);
    let members = with_key(images, places, key, n);
    let m = choose|m: int| 0 <= m < members.len() && (#[trigger] members[m]).path
        == images[i].path;
    assert(paths_of(members)[m] == images[i].path);
    sorted_members_are_members(members, images[i].path);
    assert(groups[j].members.contains(images[i].path));
    assert forall|a: int| 0 <= a < groups.len() && (#[trigger] groups[a]).members.contains(
        images[i].path,
    ) implies keys[a] == key by {
        let here = with_key(images, places, keys[a], n);
        sorted_members_are_members(here, images[i].path);
        let k = choose|k: int| 0 <= k < here.len() && paths_of(here)[k] == images[i].path;
        members_have_key(images, places, keys[a], n);
        assert(is_among(images, places, keys[a], n, here[k]));
        let x = choose|x: int|
            0 <= x < n && #[trigger] key_at(images, places, x) == keys[a] && images[x] == here[k];
        assert(images[x].path == images[i].path);
    }
}

/// The names of images in another order give the same shared name.
pub proof fn shared_id_ignores_order(a: Seq<Seq<char>>, b: Seq<Seq<char>>)
    requires
        a.to_multiset() == b.to_multiset(),
    ensures
        shared_id(a) == shared_id(b),
{
    let le = text_order(TextOrder::Plain);
    sorted_texts_are_in_order(a, TextOrder::Plain);
    sorted_texts_are_in_order(b, TextOrder::Plain);
    text_orders_are_orders(TextOrder::Plain);
    assert forall|x: Seq<char>, y: Seq<char>| #[trigger] le(x, y) && #[trigger] le(
        y,
        x,
    ) implies x == y by {
        text_order_is_total(x, y);
    }
    let sa = sorted_texts(a, TextOrder::Plain);
    let sb = sorted_texts(b, TextOrder::Plain);
    assert(vstd::relations::sorted_by(sa, le)) by {
        assert forall|i: int, j: int| 0 <= i < j < sa.len() implies #[trigger] le(
            sa[i],
            sa[j],
        ) by {}
    }
    assert(vstd::relations::sorted_by(sb, le)) by {
        assert forall|i: int, j: int| 0 <= i < j < sb.len() implies #[trigger] le(
            sb[i],
            sb[j],
        ) by {}
    }
    assert forall|x: Seq<char>| #[trigger] le(x, x) by {
        text_order_is_total(x, x);
    }
    vstd::seq_lib::lemma_sorted_unique(sa, sb, le);
}

/// Whether an image belongs to the group with a key.
pub open spec fn belongs(cfg: GroupConfig, key: Seq<char>) -> spec_fn(ImageModel) -> bool {
    |m: ImageModel| group_key(placed(cfg, m.path), m.path) == key
}

/// Whether no two images have the same path.
pub open spec fn paths_differ(images: Seq<ImageModel>) -> bool {
    forall|i: int, j: int|
        0 <= i < j < images.len() ==> (#[trigger] images[i]).path != (#[trigger] images[j]).path
}

proof fn members_are_filtered(cfg: GroupConfig, images: Seq<ImageModel>, key: Seq<char>, n: int)
    requires
        0 <= n <= images.len(),
        paths_differ(images),
    ensures
        with_key(images, all_placed(cfg, images), key, n).to_multiset() == images.take(
            n,
        ).to_multiset().filter(belongs(cfg, key)),
    decreases n,
{
    broadcast use vstd::seq_lib::group_to_multiset_ensures;

    let places = all_placed(cfg, images);
    let wanted = belongs(cfg, key);
    let now = with_key(images, places, key, n);
    if n == 0 {
        assert(images.take(0) =~= Seq::empty());
        assert(now.to_multiset() =~= images.take(0).to_multiset().filter(wanted));
    } else {
        members_are_filtered(cfg, images, key, n - 1);
        let before = with_key(images, places, key, n - 1);
        let x = images[n - 1];
        assert(images.take(n) =~= images.take(n - 1).push(x));
        assert(wanted(x) == (key_at(images, places, n - 1) == key));
        if wanted(x) && stands_alone(places[n - 1]) && before.len() > 0 {
            members_have_key(images, places, key, n - 1);
            assert(is_among(images, places, key, n - 1, before[0]));
            let m = choose|m: int|
                0 <= m < n - 1 && #[trigger] key_at(images, places, m) == key && images[m]
                    == before[0];
            keys_are_marked(places[n - 1], x.path, places[m], images[m].path);
            assert(images[m].path != images[n - 1].path);
        }
        assert(now.to_multiset() =~= images.take(n).to_multiset().filter(wanted));
    }
}

proof fn ids_follow_members(a: Seq<ImageModel>, b: Seq<ImageModel>)
    requires
        a.to_multiset() == b.to_multiset(),
    ensures
        ids_of(a).to_multiset() == ids_of(b).to_multiset(),
    decreases a.len(),
{
    broadcast use vstd::seq_lib::group_to_multiset_ensures;

    if a.len() == 0 {
        assert(a.to_multiset().len() == 0);
        assert(b.to_multiset().len() == b.len());
        assert(ids_of(a) =~= ids_of(b));
    } else {
        let x = a.last();
        assert(a.contains(x));
        assert(b.to_multiset().contains(x));
        assert(b.contains(x));
        let k = choose|k: int| 0 <= k < b.len() && b[k] == x;
        let rest = b.remove(k);
        assert(a =~= a.drop_last().push(x));
        multiset_of_removed(b, k);
        assert(a.drop_last().to_multiset() =~= rest.to_multiset());
        ids_follow_members(a.drop_last(), rest);
        assert(ids_of(a) =~= ids_of(a.drop_last()).push(x.image_id));
        assert(ids_of(b).remove(k) =~= ids_of(rest));
        multiset_of_removed(ids_of(b), k);
        assert(ids_of(a).to_multiset() =~= ids_of(b).to_multiset());
    }
}

proof fn multiset_of_removed<A>(s: Seq<A>, k: int)
    requires
        0 <= k < s.len(),
    ensures
        s.to_multiset() == s.remove(k).to_multiset().insert(s[k]),
{
    let rest = s.remove(k);
    assert(rest.insert(k, s[k]) =~= s);
    crate::sort::multiset_of_insert(rest, k, s[k]);
}

proof fn group_place_is_known(
    images: Seq<ImageModel>,
    places: Seq<PlacementModel>,
    key: Seq<char>,
    n: int,
)
    requires
        0 <= n <= images.len(),
        is_key(images, places, key, n),
    ensures
        first_place(images, places, key, n) is Some,
        exists|m: int|
            0 <= m < n && #[trigger] key_at(images, places, m) == key && Some(places[m])
                == first_place(images, places, key, n),
    decreases n,
{
    if is_key(images, places, key, n - 1) {
        group_place_is_known(images, places, key, n - 1);
        let m = choose|m: int|
            0 <= m < n - 1 && #[trigger] key_at(images, places, m) == key && Some(places[m])
                == first_place(images, places, key, n - 1);
        assert(key_at(images, places, m) == key);
    } else {
        no_image_without_key(images, places, key, n - 1);
        let i = choose|i: int| 0 <= i < n && #[trigger] key_at(images, places, i) == key;
        assert(i == n - 1);
    }
}

/// The name of a group does not depend on the order in which its images are given.
pub proof fn group_id_ignores_order(
    cfg: GroupConfig,
    a: Seq<ImageModel>,
    b: Seq<ImageModel>,
    key: Seq<char>,
)
    requires
        a.to_multiset() == b.to_multiset(),
        paths_differ(a),
        paths_differ(b),
        is_key(a, all_placed(cfg, a), key, a.len() as int),
        is_key(b, all_placed(cfg, b), key, b.len() as int),
    ensures
        group_with_key(a, all_placed(cfg, a), key).id == group_with_key(
            b,
            all_placed(cfg, b),
            key,
        ).id,
{
    broadcast use vstd::seq_lib::group_to_multiset_ensures;

    let pa = all_placed(cfg, a);
    let pb = all_placed(cfg, b);
    let na = a.len() as int;
    let nb = b.len() as int;
    members_are_filtered(cfg, a, key, na);
    members_are_filtered(cfg, b, key, nb);
    assert(a.take(na) =~= a);
    assert(b.take(nb) =~= b);
    let ma = with_key(a, pa, key, na);
    let mb = with_key(b, pb, key, nb);
    sorting_keeps_all(ma, by_path());
    sorting_keeps_all(mb, by_path());
    let sa = sorted_by(ma, by_path());
    let sb = sorted_by(mb, by_path());
    assert(sa.to_multiset() == sb.to_multiset());
    assert(sa.len() == sb.len()) by {
        assert(sa.to_multiset().len() == sb.to_multiset().len());
    }
    group_place_is_known(a, pa, key, na);
    group_place_is_known(b, pb, key, nb);
    let i = choose|i: int|
        0 <= i < na && #[trigger] key_at(a, pa, i) == key && Some(pa[i]) == first_place(
            a,
            pa,
            key,
            na,
        );
    let j = choose|j: int|
        0 <= j < nb && #[trigger] key_at(b, pb, j) == key && Some(pb[j]) == first_place(
            b,
            pb,
            key,
            nb,
        );
    keys_are_marked(pa[i], a[i].path, pb[j], b[j].path);
    keys_are_marked(pb[j], b[j].path, pa[i], a[i].path);
    if sa.len() == 1 {
        assert(sa.contains(sa[0]));
        assert(sb.to_multiset().contains(sa[0]));
        assert(sb.contains(sa[0]));
        assert(sb[0] == sa[0]);
    } else {
        ids_follow_members(sa, sb);
        shared_id_ignores_order(ids_of(sa), ids_of(sb));
    }
}

/// Whether no two images have paths that are equal step by step.
pub open spec fn paths_are_told_apart(images: Seq<ImageModel>) -> bool {
    forall|i: int, j: int|
        0 <= i < images.len() && 0 <= j < images.len() && i != j ==> !(path_le(
            (#[trigger] images[i]).path,
            (#[trigger] images[j]).path,
        ) && path_le(images[j].path, images[i].path))
}

/// Whether images that rules put into one group were put there by rules of the same
/// name.
pub open spec fn rules_agree(cfg: GroupConfig, images: Seq<ImageModel>) -> bool {
    forall|i: int, j: int|
        0 <= i < images.len() && 0 <= j < images.len() ==> {
            let p = placed(cfg, (#[trigger] images[i]).path);
            let q = placed(cfg, (#[trigger] images[j]).path);
            p is Rule && q is Rule && p->Rule_1 == q->Rule_1 ==> p == q
        }
}

proof fn path_order_is_order()
    ensures
        is_order(by_path()),
        forall|p: Seq<char>| path_le(p, p),
{
    let le = text_order(TextOrder::Path);
    text_orders_are_orders(TextOrder::Path);
    assert forall|a: ImageModel, b: ImageModel| #[trigger] by_path()(a, b) || by_path()(b, a) by {
        assert(le(a.path, b.path) || le(b.path, a.path));
    }
    assert forall|a: ImageModel, b: ImageModel, c: ImageModel| #[trigger]
        by_path()(a, b) && #[trigger] by_path()(b, c) implies by_path()(a, c) by {
        assert(le(a.path, b.path) && le(b.path, c.path));
    }
    assert forall|p: Seq<char>| path_le(p, p) by {
        assert(le(p, p));
    }
}

proof fn told_apart_paths_differ(images: Seq<ImageModel>)
    requires
        paths_are_told_apart(images),
    ensures
        paths_differ(images),
{
    path_order_is_order();
}

proof fn ascending_keys_are_unique(a: Seq<Seq<char>>, b: Seq<Seq<char>>)
    requires
        ascending(a),
        ascending(b),
        forall|x: Seq<char>| a.contains(x) <==> b.contains(x),
    ensures
        a == b,
    decreases a.len(),
{
    if a.len() == 0 {
        if b.len() > 0 {
            assert(b.contains(b[0]));
        }
        assert(a =~= b);
    } else {
        let x = a.last();
        assert(a.contains(x));
        let y = b.last();
        let k = choose|k: int| 0 <= k < b.len() && b[k] == x;
        assert(b.contains(y));
        let m = choose|m: int| 0 <= m < a.len() && a[m] == y;
        if k < b.len() - 1 {
            assert(text_le(b[k], b[b.len() - 1]) && b[k] != b[b.len() - 1]);
            assert(m < a.len() - 1);
            assert(text_le(a[m], a[a.len() - 1]));
            text_order_is_total(x, y);
        }
        assert(x == y);
        let c = a.drop_last();
        let d = b.drop_last();
        assert forall|z: Seq<char>| c.contains(z) <==> d.contains(z) by {
            if c.contains(z) {
                let i = choose|i: int| 0 <= i < c.len() && c[i] == z;
                assert(a[i] == z && a[i] != a[a.len() - 1]);
                assert(a.contains(z));
                let j = choose|j: int| 0 <= j < b.len() && b[j] == z;
                assert(d[j] == z);
            }
            if d.contains(z) {
                let i = choose|i: int| 0 <= i < d.len() && d[i] == z;
                assert(b[i] == z && b[i] != b[b.len() - 1]);
                assert(b.contains(z));
                let j = choose|j: int| 0 <= j < a.len() && a[j] == z;
                assert(c[j] == z);
            }
        }
        assert forall|i: int, j: int| 0 <= i < j < c.len() implies text_le(
            #[trigger] c[i],
            #[trigger] c[j],
        ) && c[i] != c[j] by {
            assert(c[i] == a[i] && c[j] == a[j]);
        }
        assert forall|i: int, j: int| 0 <= i < j < d.len() implies text_le(
            #[trigger] d[i],
            #[trigger] d[j],
        ) && d[i] != d[j] by {
            assert(d[i] == b[i] && d[j] == b[j]);
        }
        ascending_keys_are_unique(c, d);
        assert(a =~= c.push(x));
        assert(b =~= d.push(x));
    }
}

proof fn keys_ignore_order(cfg: GroupConfig, a: Seq<ImageModel>, b: Seq<ImageModel>, key: Seq<char>)
    requires
        a.to_multiset() == b.to_multiset(),
        is_key(a, all_placed(cfg, a), key, a.len() as int),
    ensures
        is_key(b, all_placed(cfg, b), key, b.len() as int),
{
    broadcast use vstd::seq_lib::group_to_multiset_ensures;

    let i = choose|i: int| 0 <= i < a.len() && #[trigger] key_at(a, all_placed(cfg, a), i) == key;
    assert(a.contains(a[i]));
    assert(b.to_multiset().contains(a[i]));
    assert(b.contains(a[i]));
    let j = choose|j: int| 0 <= j < b.len() && b[j] == a[i];
    assert(key_at(b, all_placed(cfg, b), j) == key);
}

proof fn group_ignores_order(
    cfg: GroupConfig,
    a: Seq<ImageModel>,
    b: Seq<ImageModel>,
    key: Seq<char>,
)
    requires
        a.to_multiset() == b.to_multiset(),
        paths_are_told_apart(a),
        paths_are_told_apart(b),
        rules_agree(cfg, a),
        is_key(a, all_placed(cfg, a), key, a.len() as int),
    ensures
        group_with_key(a, all_placed(cfg, a), key) == group_with_key(b, all_placed(cfg, b), key),
{
    broadcast use vstd::seq_lib::group_to_multiset_ensures;

    let pa = all_placed(cfg, a);
    let pb = all_placed(cfg, b);
    let na = a.len() as int;
    let nb = b.len() as int;
    keys_ignore_order(cfg, a, b, key);
    told_apart_paths_differ(a);
    told_apart_paths_differ(b);
    group_id_ignores_order(cfg, a, b, key);
    group_place_is_known(a, pa, key, na);
    group_place_is_known(b, pb, key, nb);
    let i = choose|i: int|
        0 <= i < na && #[trigger] key_at(a, pa, i) == key && Some(pa[i]) == first_place(
            a,
            pa,
            key,
            na,
        );
    let j = choose|j: int|
        0 <= j < nb && #[trigger] key_at(b, pb, j) == key && Some(pb[j]) == first_place(
            b,
            pb,
            key,
            nb,
        );
    keys_are_marked(pa[i], a[i].path, pb[j], b[j].path);
    keys_are_marked(pb[j], b[j].path, pa[i], a[i].path);
    assert(b.contains(b[j]));
    assert(a.to_multiset().contains(b[j]));
    assert(a.contains(b[j]));
    let h = choose|h: int| 0 <= h < na && a[h] == b[j];
    assert(pa[i] == pb[j]) by {
        assert(pa[i] == placed(cfg, a[i].path) && pb[j] == placed(cfg, a[h].path));
        if pa[i] is Rule {
            reveal_strlit("rule:");
            assert(key.skip(5) =~= pa[i]->Rule_1);
            assert(pb[j] is Rule);
            assert(key.skip(5) =~= pb[j]->Rule_1);
        }
    }
    members_are_filtered(cfg, a, key, na);
    members_are_filtered(cfg, b, key, nb);
    assert(a.take(na) =~= a);
    assert(b.take(nb) =~= b);
    let ma = with_key(a, pa, key, na);
    let mb = with_key(b, pb, key, nb);
    let sa = sorted_by(ma, by_path());
    let sb = sorted_by(mb, by_path());
    sorting_keeps_all(ma, by_path());
    sorting_keeps_all(mb, by_path());
    path_order_is_order();
    sorting_puts_in_order(ma, by_path());
    sorting_puts_in_order(mb, by_path());
    assert forall|x: ImageModel, y: ImageModel|
        sa.contains(x) && sa.contains(y) && #[trigger] by_path()(x, y) && #[trigger] by_path()(
            y,
            x,
        ) implies x == y by {
        assert(a.to_multiset().filter(belongs(cfg, key)).contains(x));
        assert(a.to_multiset().filter(belongs(cfg, key)).contains(y));
        assert(a.contains(x) && a.contains(y));
        let u = choose|u: int| 0 <= u < na && a[u] == x;
        let v = choose|v: int| 0 <= v < na && a[v] == y;
        if u != v {
            assert(!(path_le(a[u].path, a[v].path) && path_le(a[v].path, a[u].path)));
        }
    }
    order_is_unique(sa, sb, by_path());
}

/// The groups of images do not depend on the order in which the images are given:
/// not how many there are, nor their names, origins, members or order. Where two
/// rules of different names capture the same text, the first image decides which
/// of them counts as the origin; these are left out.
pub proof fn groups_ignore_order(
    groups: Seq<GroupModel>,
    others: Seq<GroupModel>,
    cfg: GroupConfig,
    a: Seq<ImageModel>,
    b: Seq<ImageModel>,
)
    requires
        are_groups(groups, a, all_placed(cfg, a)),
        are_groups(others, b, all_placed(cfg, b)),
        a.to_multiset() == b.to_multiset(),
        paths_are_told_apart(a),
        paths_are_told_apart(b),
        rules_agree(cfg, a),
    ensures
        groups == others,
{
    let pa = all_placed(cfg, a);
    let pb = all_placed(cfg, b);
    let na = a.len() as int;
    let nb = b.len() as int;
    let ka = choose|keys: Seq<Seq<char>>|
        {
            &&& #[trigger] are_keys(keys, a, pa, na)
            &&& groups =~= Seq::new(keys.len(), |j: int| group_with_key(a, pa, keys[j]))
        };
    let kb = choose|keys: Seq<Seq<char>>|
        {
            &&& #[trigger] are_keys(keys, b, pb, nb)
            &&& others =~= Seq::new(keys.len(), |j: int| group_with_key(b, pb, keys[j]))
        };
    assert forall|x: Seq<char>| ka.contains(x) <==> kb.contains(x) by {
        if ka.contains(x) {
            let j = choose|j: int| 0 <= j < ka.len() && ka[j] == x;
            assert(is_key(a, pa, ka[j], na));
            keys_ignore_order(cfg, a, b, x);
            let i = choose|i: int| 0 <= i < nb && #[trigger] key_at(b, pb, i) == x;
            assert(kb.contains(key_at(b, pb, i)));
        }
        if kb.contains(x) {
            let j = choose|j: int| 0 <= j < kb.len() && kb[j] == x;
            assert(is_key(b, pb, kb[j], nb));
            keys_ignore_order(cfg, b, a, x);
            let i = choose|i: int| 0 <= i < na && #[trigger] key_at(a, pa, i) == x;
            assert(ka.contains(key_at(a, pa, i)));
        }
    }
    ascending_keys_are_unique(ka, kb);
    assert forall|j: int| 0 <= j < ka.len() implies groups[j] == others[j] by {
        assert(is_key(a, pa, ka[j], na));
        group_ignores_order(cfg, a, b, ka[j]);
    }
    assert(groups =~= others);
}

/// No group is empty, its members are in the order of their paths, and each of them
/// is one of the images.
pub proof fn groups_hold_images_in_order(
    groups: Seq<GroupModel>,
    cfg: GroupConfig,
    images: Seq<ImageModel>,
    j: int,
)
    requires
        are_groups(groups, images, all_placed(cfg, images)),
        0 <= j < groups.len(),
    ensures
        groups[j].members.len() > 0,
        in_order(groups[j].members, text_order(TextOrder::Path)),
        forall|k: int|
            0 <= k < groups[j].members.len() ==> paths_of(images).contains(
                #[trigger] groups[j].members[k],
            ),
{
    let places = all_placed(cfg, images);
    let n = images.len() as int;
    let keys = choose|keys: Seq<Seq<char>>|
        {
            &&& #[trigger] are_keys(keys, images, places, n)
            &&& groups =~= Seq::new(
                keys.len(),
                |j: int| group_with_key(images, places, keys[j]),
            )
        };
    let key = keys[j];
    assert(is_key(images, places, key, n));
    let i = choose|i: int| 0 <= i < n && #[trigger] key_at(images, places, i) == key;
    image_is_with_its_key(images, places, i, n);
    let members = with_key(images, places, key, n);
    let sorted = sorted_by(members, by_path());
    sorting_keeps_all(members, by_path());
    path_order_is_order();
    sorting_puts_in_order(members, by_path());
    assert(groups[j].members == paths_of(sorted));
    let le = text_order(TextOrder::Path);
    assert forall|u: int, v: int| 0 <= u <= v < groups[j].members.len() implies u == v || le(
        #[trigger] groups[j].members[u],
        #[trigger] groups[j].members[v],
    ) by {
        assert(u == v || by_path()(sorted[u], sorted[v]));
    }
    assert forall|k: int| 0 <= k < groups[j].members.len() implies paths_of(images).contains(
        #[trigger] groups[j].members[k],
    ) by {
        let path = groups[j].members[k];
        assert(paths_of(sorted).contains(path));
        sorted_members_are_members(members, path);
        let m = choose|m: int| 0 <= m < members.len() && paths_of(members)[m] == path;
        members_have_key(images, places, key, n);
        assert(is_among(images, places, key, n, members[m]));
        let x = choose|x: int|
            0 <= x < n && #[trigger] key_at(images, places, x) == key && images[x] == members[m];
        assert(paths_of(images)[x] == path);
    }
}

/// Without a configuration every image stands alone.
pub proof fn empty_config_makes_groups_of_one(
    groups: Seq<GroupModel>,
    cfg: GroupConfig,
    images: Seq<ImageModel>,
    j: int,
)
    requires
        cfg.solo_extensions@.len() == 0,
        cfg.rules@.len() == 0,
        cfg.manual_groups@.len() == 0,
        are_groups(groups, images, all_placed(cfg, images)),
        0 <= j < groups.len(),
    ensures
        groups[j].members.len() == 1,
        groups[j].origin == "default-solo"@,
{
    let places = all_placed(cfg, images);
    let n = images.len() as int;
    let keys = choose|keys: Seq<Seq<char>>|
        {
            &&& #[trigger] are_keys(keys, images, places, n)
            &&& groups =~= Seq::new(
                keys.len(),
                |j: int| group_with_key(images, places, keys[j]),
            )
        };
    assert(is_key(images, places, keys[j], n));
    groups_hold_images_in_order(groups, cfg, images, j);
    solo_groups_have_one(images, places, keys[j], n);
    sorting_keeps_all(with_key(images, places, keys[j], n), by_path());
    group_place_is_known(images, places, keys[j], n);
}

proof fn solo_groups_have_one(
    images: Seq<ImageModel>,
    places: Seq<PlacementModel>,
    key: Seq<char>,
    n: int,
)
    requires
        0 <= n <= images.len(),
        places.len() == images.len(),
        forall|i: int| 0 <= i < places.len() ==> stands_alone(#[trigger] places[i]),
    ensures
        with_key(images, places, key, n).len() <= 1,
    decreases n,
{
    if n > 0 {
        solo_groups_have_one(images, places, key, n - 1);
    }
}

/// Whether two images belong together: both are listed in the same group, rules captured
/// the same of both, or they are the same image.
pub open spec fn belong_together(cfg: GroupConfig, a: Seq<char>, b: Seq<char>) -> bool {
    match (placed(cfg, a), placed(cfg, b)) {
        (PlacementModel::Manual(x), PlacementModel::Manual(y)) => x == y,
        (PlacementModel::Rule(_, x), PlacementModel::Rule(_, y)) => x == y,
        _ => a == b,
    }
}

proof fn keys_tell_who_belongs_together(cfg: GroupConfig, a: Seq<char>, b: Seq<char>)
    ensures
        group_key(placed(cfg, a), a) == group_key(placed(cfg, b), b) <==> belong_together(cfg, a, b),
{
    reveal_strlit("solo:");
    reveal_strlit("manual:");
    reveal_strlit("rule:");
    reveal_strlit("default-solo:");
    let x = group_key(placed(cfg, a), a);
    let y = group_key(placed(cfg, b), b);
    assert("solo:"@[0] == 's' && "manual:"@[0] == 'm' && "rule:"@[0] == 'r' && "default-solo:"@[0]
        == 'd');
    assert(placed(cfg, a) is Solo ==> x[0] == 's' && x.skip(5) =~= a);
    assert(placed(cfg, b) is Solo ==> y[0] == 's' && y.skip(5) =~= b);
    assert(placed(cfg, a) is DefaultSolo ==> x[0] == 'd' && x.skip(13) =~= a);
    assert(placed(cfg, b) is DefaultSolo ==> y[0] == 'd' && y.skip(13) =~= b);
    assert(placed(cfg, a) is Manual ==> x[0] == 'm' && x.skip(7) =~= placed(cfg, a)->Manual_0);
    assert(placed(cfg, b) is Manual ==> y[0] == 'm' && y.skip(7) =~= placed(cfg, b)->Manual_0);
    assert(placed(cfg, a) is Rule ==> x[0] == 'r' && x.skip(5) =~= placed(cfg, a)->Rule_1);
    assert(placed(cfg, b) is Rule ==> y[0] == 'r' && y.skip(5) =~= placed(cfg, b)->Rule_1);
}

/// Images are in the same group exactly where they belong together.
pub proof fn groups_hold_what_belongs_together(
    groups: Seq<GroupModel>,
    cfg: GroupConfig,
    images: Seq<ImageModel>,
    i: int,
    k: int,
    j: int,
)
    requires
        are_groups(groups, images, all_placed(cfg, images)),
        0 <= i < images.len(),
        0 <= k < images.len(),
        0 <= j < groups.len(),
        groups[j].members.contains(images[i].path),
    ensures
        groups[j].members.contains(images[k].path) <==> belong_together(
            cfg,
            images[i].path,
            images[k].path,
        ),
{
    let places = all_placed(cfg, images);
    let n = images.len() as int;
    let keys = choose|keys: Seq<Seq<char>>|
        {
            &&& #[trigger] are_keys(keys, images, places, n)
            &&& groups =~= Seq::new(
                keys.len(),
                |j: int| group_with_key(images, places, keys[j]),
            )
        };
    let here = with_key(images, places, keys[j], n);
    keys_tell_who_belongs_together(cfg, images[i].path, images[k].path);
    members_have_key(images, places, keys[j], n);
    sorted_members_are_members(here, images[i].path);
    sorted_members_are_members(here, images[k].path);
    let a = choose|a: int| 0 <= a < here.len() && paths_of(here)[a] == images[i].path;
    assert(is_among(images, places, keys[j], n, here[a]));
    let x = choose|x: int|
        0 <= x < n && #[trigger] key_at(images, places, x) == keys[j] && images[x] == here[a];
    assert(key_at(images, places, i) == key_at(images, places, x));
    if groups[j].members.contains(images[k].path) {
        let b = choose|b: int| 0 <= b < here.len() && paths_of(here)[b] == images[k].path;
        assert(is_among(images, places, keys[j], n, here[b]));
        let y = choose|y: int|
            0 <= y < n && #[trigger] key_at(images, places, y) == keys[j] && images[y] == here[b];
        assert(key_at(images, places, k) == key_at(images, places, y));
    }
    if belong_together(cfg, images[i].path, images[k].path) {
        assert(key_at(images, places, k) == keys[j]);
        image_is_with_its_key(images, places, k, n);
        let m = choose|m: int| 0 <= m < here.len() && (#[trigger] here[m]).path == images[k].path;
        assert(paths_of(here)[m] == images[k].path);
    }
}

proof fn no_key_no_place(
    images: Seq<ImageModel>,
    places: Seq<PlacementModel>,
    key: Seq<char>,
    n: int,
)
    requires
        0 <= n <= images.len(),
        forall|i: int| 0 <= i < n ==> #[trigger] key_at(images, places, i) != key,
    ensures
        first_place(images, places, key, n) is None,
    decreases n,
{
    if n > 0 {
        no_key_no_place(images, places, key, n - 1);
        assert(key_at(images, places, n - 1) != key);
    }
}

proof fn the_first_image_tells_the_place(
    images: Seq<ImageModel>,
    places: Seq<PlacementModel>,
    key: Seq<char>,
    n: int,
) -> (x: int)
    requires
        0 <= n <= images.len(),
        is_key(images, places, key, n),
    ensures
        0 <= x < n,
        key_at(images, places, x) == key,
        first_place(images, places, key, n) == Some(places[x]),
        forall|y: int| 0 <= y < x ==> #[trigger] key_at(images, places, y) != key,
    decreases n,
{
    if is_key(images, places, key, n - 1) {
        the_first_image_tells_the_place(images, places, key, n - 1)
    } else {
        assert forall|i: int| 0 <= i < n - 1 implies #[trigger] key_at(images, places, i) != key by {
        }
        no_key_no_place(images, places, key, n - 1);
        let i = choose|i: int| 0 <= i < n && #[trigger] key_at(images, places, i) == key;
        assert(i == n - 1);
        n - 1
    }
}

proof fn groups_of_one_have_one(
    images: Seq<ImageModel>,
    places: Seq<PlacementModel>,
    key: Seq<char>,
    n: int,
)
    requires
        0 <= n <= images.len(),
        forall|i: int|
            0 <= i < n && #[trigger] key_at(images, places, i) == key ==> stands_alone(places[i]),
    ensures
        with_key(images, places, key, n).len() <= 1,
    decreases n,
{
    if n > 0 {
        groups_of_one_have_one(images, places, key, n - 1);
        if key_at(images, places, n - 1) == key {
            assert(stands_alone(places[n - 1]));
        }
    }
}

/// Whether a rule captured a text of the name of an image.
pub open spec fn is_captured(cfg: GroupConfig, path: Seq<char>, key: Seq<char>) -> bool {
    placed(cfg, path) is Rule && placed(cfg, path)->Rule_1 == key
}

/// Whether some images are those of a group, and its name is the one that they have together.
pub open spec fn share_the_name(
    images: Seq<ImageModel>,
    group: GroupModel,
    members: Seq<ImageModel>,
) -> bool {
    &&& group.members == paths_of(members)
    &&& group.id == shared_id(ids_of(members))
    &&& forall|k: int| 0 <= k < members.len() ==> images.contains(#[trigger] members[k])
}

/// A group bears the name under which its images are listed; otherwise the name of its only
/// image, or one that its images have together. Its origin is the listing, or the rule that
/// captured the name of the first of its images; an image that stands alone has a group of its
/// own.
pub proof fn groups_tell_what_put_them_together(
    groups: Seq<GroupModel>,
    cfg: GroupConfig,
    images: Seq<ImageModel>,
    i: int,
    j: int,
)
    requires
        are_groups(groups, images, all_placed(cfg, images)),
        0 <= i < images.len(),
        0 <= j < groups.len(),
        groups[j].members.contains(images[i].path),
    ensures
        match placed(cfg, images[i].path) {
            PlacementModel::Manual(id) => groups[j].id == id && groups[j].origin == "manual:"@ + id,
            PlacementModel::Rule(_, key) => exists|x: int|
                {
                    &&& 0 <= x < images.len()
                    &&& is_captured(cfg, (#[trigger] images[x]).path, key)
                    &&& groups[j].origin == "rule:"@ + placed(cfg, images[x].path)->Rule_0
                    &&& forall|y: int|
                        0 <= y < x ==> !is_captured(cfg, (#[trigger] images[y]).path, key)
                },
            PlacementModel::Solo => groups[j].origin == "solo"@ && groups[j].members
                == seq![images[i].path],
            PlacementModel::DefaultSolo => groups[j].origin == "default-solo"@ && groups[j].members
                == seq![images[i].path],
        },
        !(placed(cfg, images[i].path) is Manual) && groups[j].members.len() == 1 && paths_differ(
            images,
        ) ==> groups[j].id == images[i].image_id,
        !(placed(cfg, images[i].path) is Manual) && groups[j].members.len() > 1 ==> exists|
            members: Seq<ImageModel>,
        | #[trigger] share_the_name(images, groups[j], members),
{
    broadcast use vstd::seq_lib::group_to_multiset_ensures;

    let places = all_placed(cfg, images);
    let n = images.len() as int;
    let keys = choose|keys: Seq<Seq<char>>|
        {
            &&& #[trigger] are_keys(keys, images, places, n)
            &&& groups =~= Seq::new(
                keys.len(),
                |j: int| group_with_key(images, places, keys[j]),
            )
        };
    let key = keys[j];
    let path = images[i].path;
    let here = with_key(images, places, key, n);
    let sorted = sorted_by(here, by_path());
    sorting_keeps_all(here, by_path());
    members_have_key(images, places, key, n);
    sorted_members_are_members(here, path);
    let a = choose|a: int| 0 <= a < here.len() && paths_of(here)[a] == path;
    assert(is_among(images, places, key, n, here[a]));
    let z = choose|z: int|
        0 <= z < n && #[trigger] key_at(images, places, z) == key && images[z] == here[a];
    assert(key_at(images, places, i) == key_at(images, places, z));
    assert(is_key(images, places, key, n));
    let x = the_first_image_tells_the_place(images, places, key, n);
    keys_tell_who_belongs_together(cfg, images[x].path, path);
    assert(belong_together(cfg, images[x].path, path));
    assert forall|y: int| 0 <= y < n implies (#[trigger] key_at(images, places, y) == key
        <==> belong_together(cfg, images[y].path, path)) by {
        keys_tell_who_belongs_together(cfg, images[y].path, path);
    }
    assert(groups[j] == group_with_key(images, places, key));
    assert(places[x] == placed(cfg, images[x].path));
    match placed(cfg, path) {
        PlacementModel::Rule(_, text) => {
            assert(is_captured(cfg, images[x].path, text));
            assert forall|y: int| 0 <= y < x implies !is_captured(
                cfg,
                (#[trigger] images[y]).path,
                text,
            ) by {
                assert(key_at(images, places, y) != key);
            }
        },
        PlacementModel::Manual(_) => {},
        _ => {
            assert forall|y: int|
                0 <= y < n && #[trigger] key_at(images, places, y) == key implies stands_alone(
                places[y],
            ) by {
                assert(belong_together(cfg, images[y].path, path));
                assert(places[y] == placed(cfg, images[y].path));
            }
            groups_of_one_have_one(images, places, key, n);
            assert(sorted.len() == here.len()) by {
                assert(sorted.to_multiset().len() == here.to_multiset().len());
            }
            assert(groups[j].members =~= seq![path]);
        },
    }
    assert forall|k: int| 0 <= k < sorted.len() implies images.contains(#[trigger] sorted[k]) by {
        assert(sorted.to_multiset().contains(sorted[k]));
        assert(here.contains(sorted[k]));
        let m = choose|m: int| 0 <= m < here.len() && here[m] == sorted[k];
        assert(is_among(images, places, key, n, here[m]));
    }
    if !(placed(cfg, path) is Manual) {
        if groups[j].members.len() == 1 && paths_differ(images) {
            assert(groups[j].members[0] == path);
            assert(sorted[0].path == path);
            let m = choose|m: int| 0 <= m < images.len() && images[m] == sorted[0];
            assert(m == i);
        }
        if groups[j].members.len() > 1 {
            assert(share_the_name(images, groups[j], sorted));
        }
    }
}

} // verus!
