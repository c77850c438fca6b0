//! Import of exported categories, tags and rules: the preview that tells,
//! item by item, what will be created and what will be skipped, and the
//! order in which categories can be created.

use vstd::prelude::*;
use crate::filters::{decimal, push_decimal};
use crate::category_tree::{find_last, last_with_id};
use crate::models::{Category, RuleActionType, Tag, TagStyle};
use crate::rules::Rule;
use crate::query::{int_text, push_i64};
use crate::error::AppError;
use crate::text::str_eq;

verus! {

/// Status of a single item in an import preview.
#[derive(Debug, Clone, Copy, PartialEq, Eq, Structural)]
pub enum ImportPreviewStatus {
    Valid,
    Skipped,
}

/// One row in the import preview table.
#[derive(Debug, Clone)]
pub struct ImportPreviewItem {
    pub status: ImportPreviewStatus,
    /// Human-readable reason the item will be skipped (empty for Ok items).
    pub reason: String,
    /// Column values for display.
    pub cells: Vec<String>,
}

impl ImportPreviewItem {
    pub fn is_skipped(&self) -> (res: bool)
        ensures
            res == (self.status == ImportPreviewStatus::Skipped),
    {
        match self.status {
            ImportPreviewStatus::Skipped => true,
            ImportPreviewStatus::Valid => false,
        }
    }
}

/// Form payload sent by the client-side hidden form.
#[derive(Debug)]
pub struct ImportPreviewForm {
    pub data: String,
}

/// The color of an imported category or tag whose file gives none.
pub fn default_color() -> (res: String)
    ensures
        res@ == "#6b7280"@,
{
    String::from_str("#6b7280")
}

/// The icon of an imported category whose file gives none.
pub fn default_icon() -> (res: String)
    ensures
        res@ == "folder"@,
{
    String::from_str("folder")
}

/// An exported category.
#[derive(Debug, Clone)]
pub struct CategoryImport {
    pub name: String,
    pub parent_name: Option<String>,
    pub color: String,
    pub icon: String,
}

/// An exported tag.
#[derive(Debug, Clone)]
pub struct TagImport {
    pub name: String,
    pub color: String,
    pub style: TagStyle,
}

/// An exported rule; `action_value` names a category or tag.
#[derive(Debug, Clone)]
pub struct RuleImport {
    pub name: String,
    pub pattern: String,
    pub action_type: RuleActionType,
    pub action_value: String,
}

pub open spec fn names_view(v: Seq<String>) -> Seq<Seq<char>> {
    v.map_values(|s: String| s@)
}

pub open spec fn cells_view(item: ImportPreviewItem) -> Seq<Seq<char>> {
    names_view(item.cells@)
}

/// Whether `name` is among `names`.
pub fn contains_name(names: &Vec<String>, name: &String) -> (res: bool)
    ensures
        res == names_view(names@).contains(name@),
{
    let mut i: usize = 0;
    while i < names.len()
        invariant
            i <= names@.len(),
            forall|t: int| 0 <= t < i ==> names@[t]@ != name@,
        decreases names@.len() - i,
    {
        if names[i] == *name {
            assert(names_view(names@)[i as int] == name@);
            return true;
        }
        i += 1;
    }
    assert forall|t: int| 0 <= t < names_view(names@).len() implies names_view(names@)[t] != name@ by {
        assert(names_view(names@)[t] == names@[t]@);
    }
    false
}

/// The verdict on one category: skipped when its name exists already, or
/// when its parent is neither an existing category nor one of the file's.
pub open spec fn category_verdict(existing: Seq<Seq<char>>, all: Seq<Seq<char>>, c: CategoryImport) -> (
    ImportPreviewStatus,
    Seq<char>,
) {
    if existing.contains(c.name@) {
        (ImportPreviewStatus::Skipped, "already exists"@)
    } else if c.parent_name is Some && !all.contains(c.parent_name->0@) {
        (ImportPreviewStatus::Skipped, "parent \""@ + c.parent_name->0@ + "\" not found"@)
    } else {
        (ImportPreviewStatus::Valid, Seq::<char>::empty())
    }
}

pub open spec fn category_cells(c: CategoryImport) -> Seq<Seq<char>> {
    seq![
        c.name@,
        match c.parent_name {
            Some(p) => p@,
            None => Seq::<char>::empty(),
        },
        c.color@,
        c.icon@,
    ]
}

/// The number of skipped items.
pub open spec fn skipped_count(items: Seq<ImportPreviewItem>) -> nat
    decreases items.len(),
{
    if items.len() == 0 {
        0
    } else {
        skipped_count(items.drop_last()) + if items.last().status == ImportPreviewStatus::Skipped {
            1nat
        } else {
            0nat
        }
    }
}

fn clone_names(v: &Vec<String>) -> (res: Vec<String>)
    ensures
        names_view(res@) == names_view(v@),
{
    let mut out: Vec<String> = Vec::new();
    let mut i: usize = 0;
    while i < v.len()
        invariant
            i <= v@.len(),
            names_view(out@) == names_view(v@.take(i as int)),
        decreases v@.len() - i,
    {
        let ghost before = out@;
        out.push(v[i].clone());
        assert(names_view(out@) =~= names_view(before).push(v@[i as int]@));
        assert(names_view(out@) =~= names_view(v@.take(i + 1)));
        i += 1;
    }
    assert(v@.take(v@.len() as int) =~= v@);
    out
}

/// Counts the skipped items of a preview.
pub fn count_skipped(items: &Vec<ImportPreviewItem>) -> (res: usize)
    ensures
        res == skipped_count(items@),
        res <= items@.len(),
{
    let mut n: usize = 0;
    let mut i: usize = 0;
    while i < items.len()
        invariant
            i <= items@.len(),
            n == skipped_count(items@.take(i as int)),
            n <= i,
        decreases items@.len() - i,
    {
        assert(items@.take(i + 1).drop_last() =~= items@.take(i as int));
        if items[i].is_skipped() {
            n += 1;
        }
        i += 1;
    }
    assert(items@.take(items@.len() as int) =~= items@);
    n
}

/// The names of the categories in the file.
pub open spec fn category_names(items: Seq<CategoryImport>) -> Seq<Seq<char>> {
    items.map_values(|c: CategoryImport| c.name@)
}

/// Previews the import of categories against the names that exist.
pub fn preview_categories(existing: &Vec<String>, items: &Vec<CategoryImport>) -> (res: Vec<ImportPreviewItem>)
    ensures
        res@.len() == items@.len(),
        forall|i: int|
            0 <= i < items@.len() ==> {
                let v = category_verdict(
                    names_view(existing@),
                    names_view(existing@) + category_names(items@),
                    items@[i],
                );
                &&& (#[trigger] res@[i]).status == v.0
                &&& res@[i].reason@ == v.1
                &&& cells_view(res@[i]) == category_cells(items@[i])
            },
{
    let mut all = clone_names(existing);
    let mut k: usize = 0;
    while k < items.len()
        invariant
            k <= items@.len(),
            names_view(all@) == names_view(existing@) + category_names(items@.take(k as int)),
        decreases items@.len() - k,
    {
        let ghost before = all@;
        all.push(items[k].name.clone());
        assert(names_view(all@) =~= names_view(before).push(items@[k as int].name@));
        assert(category_names(items@.take(k + 1)) =~= category_names(items@.take(k as int)).push(items@[k as int].name@));
        assert(names_view(all@) =~= names_view(existing@) + category_names(items@.take(k + 1)));
        k += 1;
    }
    assert(items@.take(items@.len() as int) =~= items@);
    let ghost ev = names_view(existing@);
    let ghost av = names_view(all@);
    let mut out: Vec<ImportPreviewItem> = Vec::new();
    let mut i: usize = 0;
    while i < items.len()
        invariant
            i <= items@.len(),
            ev == names_view(existing@),
            av == names_view(all@),
            av == names_view(existing@) + category_names(items@),
            out@.len() == i,
            forall|t: int|
                0 <= t < i ==> {
                    let v = category_verdict(ev, av, items@[t]);
                    &&& (#[trigger] out@[t]).status == v.0
                    &&& out@[t].reason@ == v.1
                    &&& cells_view(out@[t]) == category_cells(items@[t])
                },
        decreases items@.len() - i,
    {
        let item = &items[i];
        let mut cells: Vec<String> = Vec::new();
        cells.push(item.name.clone());
        cells.push(match &item.parent_name {
            Some(p) => p.clone(),
            None => String::new(),
        });
        cells.push(item.color.clone());
        cells.push(item.icon.clone());
        assert(names_view(cells@) =~= category_cells(*item));
        let (status, reason) = if contains_name(existing, &item.name) {
            (ImportPreviewStatus::Skipped, String::from_str("already exists"))
        } else {
            match &item.parent_name {
                Some(pn) => if !contains_name(&all, pn) {
                    let mut r = String::from_str("parent \"");
                    r.append(pn.as_str());
                    r.append("\" not found");
                    (ImportPreviewStatus::Skipped, r)
                } else {
                    (ImportPreviewStatus::Valid, String::new())
                },
                None => (ImportPreviewStatus::Valid, String::new()),
            }
        };
        out.push(ImportPreviewItem { status, reason, cells });
        i += 1;
    }
    out
}

/// The verdict on one tag: skipped when its name exists already.
pub open spec fn tag_verdict(existing: Seq<Seq<char>>, t: TagImport) -> (ImportPreviewStatus, Seq<char>) {
    if existing.contains(t.name@) {
        (ImportPreviewStatus::Skipped, "already exists"@)
    } else {
        (ImportPreviewStatus::Valid, Seq::<char>::empty())
    }
}

/// Previews the import of tags against the names that exist.
pub fn preview_tags(existing: &Vec<String>, items: &Vec<TagImport>) -> (res: Vec<ImportPreviewItem>)
    ensures
        res@.len() == items@.len(),
        forall|i: int|
            0 <= i < items@.len() ==> {
                let v = tag_verdict(names_view(existing@), items@[i]);
                &&& (#[trigger] res@[i]).status == v.0
                &&& res@[i].reason@ == v.1
                &&& cells_view(res@[i]) == seq![items@[i].name@, items@[i].color@, items@[i].style.label_text()]
            },
{
    let mut out: Vec<ImportPreviewItem> = Vec::new();
    let mut i: usize = 0;
    while i < items.len()
        invariant
            i <= items@.len(),
            out@.len() == i,
            forall|t: int|
                0 <= t < i ==> {
                    let v = tag_verdict(names_view(existing@), items@[t]);
                    &&& (#[trigger] out@[t]).status == v.0
                    &&& out@[t].reason@ == v.1
                    &&& cells_view(out@[t]) == seq![items@[t].name@, items@[t].color@, items@[t].style.label_text()]
                },
        decreases items@.len() - i,
    {
        let item = &items[i];
        let mut cells: Vec<String> = Vec::new();
        cells.push(item.name.clone());
        cells.push(item.color.clone());
        cells.push(String::from_str(item.style.label()));
        assert(names_view(cells@) =~= seq![item.name@, item.color@, item.style.label_text()]);
        let (status, reason) = if contains_name(existing, &item.name) {
            (ImportPreviewStatus::Skipped, String::from_str("already exists"))
        } else {
            (ImportPreviewStatus::Valid, String::new())
        };
        out.push(ImportPreviewItem { status, reason, cells });
        i += 1;
    }
    out
}

pub open spec fn action_label(a: RuleActionType) -> Seq<char> {
    match a {
        RuleActionType::AssignCategory => "Assign Category"@,
        RuleActionType::AssignTag => "Assign Tag"@,
    }
}

/// The verdict on one rule: skipped when a rule of that name exists, or
/// when the category or tag it assigns is known neither here nor in the
/// file.
pub open spec fn rule_verdict(
    existing_rules: Seq<Seq<char>>,
    category_names: Seq<Seq<char>>,
    tag_names: Seq<Seq<char>>,
    r: RuleImport,
) -> (ImportPreviewStatus, Seq<char>) {
    if existing_rules.contains(r.name@) {
        (ImportPreviewStatus::Skipped, "already exists"@)
    } else {
        match r.action_type {
            RuleActionType::AssignCategory => if category_names.contains(r.action_value@) {
                (ImportPreviewStatus::Valid, Seq::<char>::empty())
            } else {
                (ImportPreviewStatus::Skipped, "category \""@ + r.action_value@ + "\" not found"@)
            },
            RuleActionType::AssignTag => if tag_names.contains(r.action_value@) {
                (ImportPreviewStatus::Valid, Seq::<char>::empty())
            } else {
                (ImportPreviewStatus::Skipped, "tag \""@ + r.action_value@ + "\" not found"@)
            },
        }
    }
}

/// Previews the import of rules; `category_names` and `tag_names` are the
/// names a rule may refer to (existing ones and those of the file).
pub fn preview_rules(
    existing_rules: &Vec<String>,
    category_names: &Vec<String>,
    tag_names: &Vec<String>,
    items: &Vec<RuleImport>,
) -> (res: Vec<ImportPreviewItem>)
    ensures
        res@.len() == items@.len(),
        forall|i: int|
            0 <= i < items@.len() ==> {
                let v = rule_verdict(
                    names_view(existing_rules@),
                    names_view(category_names@),
                    names_view(tag_names@),
                    items@[i],
                );
                &&& (#[trigger] res@[i]).status == v.0
                &&& res@[i].reason@ == v.1
                &&& cells_view(res@[i]) == seq![
                    items@[i].name@,
                    items@[i].pattern@,
                    action_label(items@[i].action_type),
                    items@[i].action_value@,
                ]
            },
{
    let mut out: Vec<ImportPreviewItem> = Vec::new();
    let mut i: usize = 0;
    while i < items.len()
        invariant
            i <= items@.len(),
            out@.len() == i,
            forall|t: int|
                0 <= t < i ==> {
                    let v = rule_verdict(
                        names_view(existing_rules@),
                        names_view(category_names@),
                        names_view(tag_names@),
                        items@[t],
                    );
                    &&& (#[trigger] out@[t]).status == v.0
                    &&& out@[t].reason@ == v.1
                    &&& cells_view(out@[t]) == seq![
                        items@[t].name@,
                        items@[t].pattern@,
                        action_label(items@[t].action_type),
                        items@[t].action_value@,
                    ]
                },
        decreases items@.len() - i,
    {
        let item = &items[i];
        let label = match item.action_type {
            RuleActionType::AssignCategory => "Assign Category",
            RuleActionType::AssignTag => "Assign Tag",
        };
        let mut cells: Vec<String> = Vec::new();
        cells.push(item.name.clone());
        cells.push(item.pattern.clone());
        cells.push(String::from_str(label));
        cells.push(item.action_value.clone());
        assert(names_view(cells@) =~= seq![item.name@, item.pattern@, action_label(item.action_type), item.action_value@]);
        let (status, reason) = if contains_name(existing_rules, &item.name) {
            (ImportPreviewStatus::Skipped, String::from_str("already exists"))
        } else {
            let (known, kind) = match item.action_type {
                RuleActionType::AssignCategory => (contains_name(category_names, &item.action_value), "category"),
                RuleActionType::AssignTag => (contains_name(tag_names, &item.action_value), "tag"),
            };
            if known {
                (ImportPreviewStatus::Valid, String::new())
            } else {
                proof {
                    reveal_strlit("category");
                    reveal_strlit("tag");
                    reveal_strlit(" \"");
                    reveal_strlit("category \"");
                    reveal_strlit("tag \"");
                }
                let mut r = String::from_str(kind);
                r.append(" \"");
                r.append(item.action_value.as_str());
                r.append("\" not found");
                (ImportPreviewStatus::Skipped, r)
            }
        };
        out.push(ImportPreviewItem { status, reason, cells });
        i += 1;
    }
    out
}

/// What to do with an exported category during import, given the names
/// known so far.
#[derive(Debug, Clone, Copy, PartialEq, Eq, Structural)]
pub enum CategoryStep {
    /// A category of that name exists: nothing to do.
    Skip,
    /// Its parent (if any) is known: create it now.
    Create,
    /// Its parent is not known yet: try again in the next pass.
    Defer,
}

pub open spec fn category_step_spec(known: Seq<Seq<char>>, c: CategoryImport) -> CategoryStep {
    if known.contains(c.name@) {
        CategoryStep::Skip
    } else if c.parent_name is None || known.contains(c.parent_name->0@) {
        CategoryStep::Create
    } else {
        CategoryStep::Defer
    }
}

/// Decides the step for one category (parents are created before their
/// children; passes repeat while some category was created).
pub fn category_step(known: &Vec<String>, c: &CategoryImport) -> (res: CategoryStep)
    ensures
        res == category_step_spec(names_view(known@), *c),
{
    if contains_name(known, &c.name) {
        return CategoryStep::Skip;
    }
    match &c.parent_name {
        None => CategoryStep::Create,
        Some(p) => if contains_name(known, p) {
            CategoryStep::Create
        } else {
            CategoryStep::Defer
        },
    }
}

/// The error reported for a category whose parent never appeared.
pub open spec fn unresolved_parent_text(c: CategoryImport) -> Seq<char> {
    "category \""@ + c.name@ + "\": parent \""@ + match c.parent_name {
        Some(p) => p@,
        None => "?"@,
    } + "\" not found"@
}

pub fn unresolved_parent_message(c: &CategoryImport) -> (res: String)
    ensures
        res@ == unresolved_parent_text(*c),
{
    let mut m = String::from_str("category \"");
    m.append(c.name.as_str());
    m.append("\": parent \"");
    match &c.parent_name {
        Some(p) => m.append(p.as_str()),
        None => m.append("?"),
    }
    m.append("\" not found");
    m
}

// ---------------------------------------------------------------------------
// The file and the totals of a preview
// ---------------------------------------------------------------------------

/// The type an export file declares in its header.
pub open spec fn manage_export_type() -> Seq<char> {
    "solvency-manage-export"@
}

/// Accepts a file of the manage export type; refuses any other with a
/// validation error.
pub fn check_export_type(export_type: &str) -> (res: Result<(), AppError>)
    ensures
        res is Ok <==> export_type@ == manage_export_type(),
        res matches Err(e) ==> (e matches AppError::Validation(m) && m@
            == "Invalid export file: expected type \"solvency-manage-export\""@),
{
    if str_eq(export_type, "solvency-manage-export") {
        Ok(())
    } else {
        Err(AppError::Validation(String::from_str("Invalid export file: expected type \"solvency-manage-export\"")))
    }
}

/// The category names a rule of the file may refer to: those that exist,
/// then those of the file.
pub fn category_target_names(existing: &Vec<String>, items: &Vec<CategoryImport>) -> (res: Vec<String>)
    ensures
        names_view(res@) == names_view(existing@) + category_names(items@),
{
    let mut out: Vec<String> = Vec::new();
    let mut i: usize = 0;
    while i < existing.len()
        invariant
            i <= existing@.len(),
            names_view(out@) == names_view(existing@.take(i as int)),
        decreases existing@.len() - i,
    {
        let ghost before = out@;
        out.push(existing[i].clone());
        assert(names_view(out@) =~= names_view(before).push(existing@[i as int]@));
        assert(names_view(out@) =~= names_view(existing@.take(i + 1)));
        i += 1;
    }
    assert(existing@.take(existing@.len() as int) =~= existing@);
    let mut j: usize = 0;
    while j < items.len()
        invariant
            j <= items@.len(),
            names_view(out@) == names_view(existing@) + category_names(items@.take(j as int)),
        decreases items@.len() - j,
    {
        let ghost before = out@;
        out.push(items[j].name.clone());
        assert(names_view(out@) =~= names_view(before).push(items@[j as int].name@));
        assert(category_names(items@.take(j + 1)) =~= category_names(items@.take(j as int)).push(items@[j as int].name@));
        assert(names_view(out@) =~= names_view(existing@) + category_names(items@.take(j + 1)));
        j += 1;
    }
    assert(items@.take(items@.len() as int) =~= items@);
    out
}

/// The names of the tags in the file.
pub open spec fn tag_names_of(items: Seq<TagImport>) -> Seq<Seq<char>> {
    items.map_values(|t: TagImport| t.name@)
}

/// The tag names a rule of the file may refer to: those that exist, then
/// those of the file.
pub fn tag_target_names(existing: &Vec<String>, items: &Vec<TagImport>) -> (res: Vec<String>)
    ensures
        names_view(res@) == names_view(existing@) + tag_names_of(items@),
{
    let mut out: Vec<String> = Vec::new();
    let mut i: usize = 0;
    while i < existing.len()
        invariant
            i <= existing@.len(),
            names_view(out@) == names_view(existing@.take(i as int)),
        decreases existing@.len() - i,
    {
        let ghost before = out@;
        out.push(existing[i].clone());
        assert(names_view(out@) =~= names_view(before).push(existing@[i as int]@));
        assert(names_view(out@) =~= names_view(existing@.take(i + 1)));
        i += 1;
    }
    assert(existing@.take(existing@.len() as int) =~= existing@);
    let mut j: usize = 0;
    while j < items.len()
        invariant
            j <= items@.len(),
            names_view(out@) == names_view(existing@) + tag_names_of(items@.take(j as int)),
        decreases items@.len() - j,
    {
        let ghost before = out@;
        out.push(items[j].name.clone());
        assert(names_view(out@) =~= names_view(before).push(items@[j as int].name@));
        assert(tag_names_of(items@.take(j + 1)) =~= tag_names_of(items@.take(j as int)).push(items@[j as int].name@));
        assert(names_view(out@) =~= names_view(existing@) + tag_names_of(items@.take(j + 1)));
        j += 1;
    }
    assert(items@.take(items@.len() as int) =~= items@);
    out
}

/// The counts shown above an import preview.
pub struct PreviewTotals {
    pub category_ok: usize,
    pub category_skip: usize,
    pub tag_ok: usize,
    pub tag_skip: usize,
    pub rule_ok: usize,
    pub rule_skip: usize,
    pub total_ok: usize,
}

/// The counts of a preview: for each kind, the items to import and those
/// skipped, and the number to import in all.
pub fn preview_totals(
    categories: &Vec<ImportPreviewItem>,
    tags: &Vec<ImportPreviewItem>,
    rules: &Vec<ImportPreviewItem>,
) -> (res: PreviewTotals)
    requires
        categories@.len() + tags@.len() + rules@.len() <= usize::MAX,
    ensures
        res.category_skip == skipped_count(categories@),
        res.category_ok == categories@.len() - skipped_count(categories@),
        res.tag_skip == skipped_count(tags@),
        res.tag_ok == tags@.len() - skipped_count(tags@),
        res.rule_skip == skipped_count(rules@),
        res.rule_ok == rules@.len() - skipped_count(rules@),
        res.total_ok == res.category_ok + res.tag_ok + res.rule_ok,
{
    let cs = count_skipped(categories);
    let ts = count_skipped(tags);
    let rs = count_skipped(rules);
    let co = categories.len() - cs;
    let to = tags.len() - ts;
    let ro = rules.len() - rs;
    PreviewTotals {
        category_ok: co,
        category_skip: cs,
        tag_ok: to,
        tag_skip: ts,
        rule_ok: ro,
        rule_skip: rs,
        total_ok: co + to + ro,
    }
}

// ---------------------------------------------------------------------------
// Creating the imported categories, pass after pass
// ---------------------------------------------------------------------------

/// The step for one category, with the categories known so far as
/// (name, id) pairs.
pub open spec fn pass_step(known: Seq<(Seq<char>, i64)>, c: CategoryImport) -> CategoryStep {
    if id_named(known, c.name@) is Some {
        CategoryStep::Skip
    } else if c.parent_name is None || id_named(known, c.parent_name->0@) is Some {
        CategoryStep::Create
    } else {
        CategoryStep::Defer
    }
}

/// The categories of `s` that wait for a later pass.
pub open spec fn defers(known: Seq<(Seq<char>, i64)>, s: Seq<CategoryImport>) -> Seq<CategoryImport> {
    s.filter(|c: CategoryImport| pass_step(known, c) == CategoryStep::Defer)
}

/// `k` is the first index from `from` on whose category can be created.
pub open spec fn first_create_at(known: Seq<(Seq<char>, i64)>, s: Seq<CategoryImport>, from: int, k: int) -> bool {
    &&& from <= k < s.len()
    &&& pass_step(known, s[k]) == CategoryStep::Create
    &&& forall|j: int| from <= j < k ==> pass_step(known, #[trigger] s[j]) != CategoryStep::Create
}

/// No category from `from` on can be created.
pub open spec fn none_to_create(known: Seq<(Seq<char>, i64)>, s: Seq<CategoryImport>, from: int) -> bool {
    forall|j: int| from <= j < s.len() ==> pass_step(known, #[trigger] s[j]) != CategoryStep::Create
}

/// The errors reported for categories whose parent never appeared.
pub open spec fn unresolved_texts(s: Seq<CategoryImport>) -> Seq<Seq<char>> {
    s.map_values(|c: CategoryImport| unresolved_parent_text(c))
}

pub open spec fn texts_of(v: Seq<String>) -> Seq<Seq<char>> {
    v.map_values(|s: String| s@)
}

/// What to do next while importing categories.
pub enum CategoryImportAction {
    /// Create this category under the category with id `parent_id`, then
    /// report the outcome with `record`.
    Create { item: CategoryImport, parent_id: Option<i64> },
    /// Nothing more can be created.
    Done,
}

/// The state of the category import: categories are taken in file
/// order; one whose parent is not known yet waits for the next pass, and
/// passes repeat while the last one created something.
pub struct CategoryImportRun {
    /// The categories known by name: those that existed, then those
    /// created, each with its id.
    pub known: Vec<(String, i64)>,
    /// How many entries of `known` existed before the import.
    pub existing: usize,
    /// The categories of the current pass, and the next one to look at.
    pub pass: Vec<CategoryImport>,
    pub pos: usize,
    /// The categories of the current pass that wait for the next one.
    pub deferred: Vec<CategoryImport>,
    /// Whether the current pass created a category.
    pub progress: bool,
    /// The category handed out for creation whose outcome is not known yet.
    pub awaiting: Option<CategoryImport>,
    /// The errors so far.
    pub errors: Vec<String>,
}

fn copy_import(c: &CategoryImport) -> (res: CategoryImport)
    ensures
        res == *c,
{
    let parent_name = match &c.parent_name {
        Some(p) => Some(p.clone()),
        None => None,
    };
    CategoryImport { name: c.name.clone(), parent_name, color: c.color.clone(), icon: c.icon.clone() }
}

fn import_step(known: &Vec<(String, i64)>, c: &CategoryImport) -> (res: CategoryStep)
    ensures
        res == pass_step(pairs_view(known@), *c),
{
    if find_named(known, &c.name).is_some() {
        return CategoryStep::Skip;
    }
    match &c.parent_name {
        None => CategoryStep::Create,
        Some(p) => if find_named(known, p).is_some() {
            CategoryStep::Create
        } else {
            CategoryStep::Defer
        },
    }
}

impl CategoryImportRun {
    pub open spec fn wf(&self) -> bool {
        &&& self.existing <= self.known@.len()
        &&& self.pos <= self.pass@.len()
    }

    /// The number of categories created so far.
    pub open spec fn created(&self) -> int {
        self.known@.len() - self.existing
    }

    /// The import of `items` against the categories that exist, as
    /// (name, id) pairs.
    pub fn start(existing: Vec<(String, i64)>, items: Vec<CategoryImport>) -> (res: CategoryImportRun)
        ensures
            res.wf(),
            res.known@ == existing@,
            res.existing == existing@.len(),
            res.pass@ == items@,
            res.pos == 0,
            res.deferred@.len() == 0,
            !res.progress,
            res.awaiting is None,
            res.errors@.len() == 0,
    {
        let n = existing.len();
        CategoryImportRun {
            known: existing,
            existing: n,
            pass: items,
            pos: 0,
            deferred: Vec::new(),
            progress: false,
            awaiting: None,
            errors: Vec::new(),
        }
    }

    /// Looks through the current pass from `pos` for the first category
    /// that can be created, putting those that must wait aside.
    fn scan(&mut self) -> (found: bool)
        requires
            old(self).wf(),
        ensures
            final(self).wf(),
            final(self).known == old(self).known,
            final(self).existing == old(self).existing,
            final(self).pass == old(self).pass,
            final(self).progress == old(self).progress,
            final(self).awaiting == old(self).awaiting,
            final(self).errors == old(self).errors,
            found ==> final(self).pos >= 1 && first_create_at(
                pairs_view(old(self).known@),
                old(self).pass@,
                old(self).pos as int,
                final(self).pos - 1,
            ),
            found ==> final(self).deferred@ == old(self).deferred@ + defers(
                pairs_view(old(self).known@),
                old(self).pass@.subrange(old(self).pos as int, final(self).pos - 1),
            ),
            !found ==> none_to_create(pairs_view(old(self).known@), old(self).pass@, old(self).pos as int),
            !found ==> final(self).pos == old(self).pass@.len(),
            !found ==> final(self).deferred@ == old(self).deferred@ + defers(
                pairs_view(old(self).known@),
                old(self).pass@.subrange(old(self).pos as int, old(self).pass@.len() as int),
            ),
    {
        let ghost kv = pairs_view(self.known@);
        let ghost start = self.pos as int;
        let ghost d0 = self.deferred@;
        while self.pos < self.pass.len()
            invariant
                self.wf(),
                kv == pairs_view(self.known@),
                start <= self.pos <= self.pass@.len(),
                self.known == old(self).known,
                self.existing == old(self).existing,
                self.pass == old(self).pass,
                self.progress == old(self).progress,
                self.awaiting == old(self).awaiting,
                self.errors == old(self).errors,
                start == old(self).pos,
                d0 == old(self).deferred@,
                none_to_create(kv, self.pass@.subrange(0, self.pos as int), start),
                forall|j: int| start <= j < self.pos ==> pass_step(kv, #[trigger] self.pass@[j]) != CategoryStep::Create,
                self.deferred@ == d0 + defers(kv, self.pass@.subrange(start, self.pos as int)),
            decreases self.pass@.len() - self.pos,
        {
            let i = self.pos;
            let step = import_step(&self.known, &self.pass[i]);
            let ghost before = self.pass@.subrange(start, i as int);
            assert(self.pass@.subrange(start, i + 1) =~= before.push(self.pass@[i as int]));
            proof {
                reveal_with_fuel(Seq::filter, 1);
                assert(self.pass@.subrange(start, i + 1).drop_last() =~= before);
            }
            match step {
                CategoryStep::Create => {
                    self.pos = i + 1;
                    return true;
                },
                CategoryStep::Defer => {
                    let c = copy_import(&self.pass[i]);
                    self.deferred.push(c);
                    self.pos = i + 1;
                },
                CategoryStep::Skip => {
                    self.pos = i + 1;
                },
            }
        }
        false
    }

    /// The next thing to do: create a category, or stop. When the current
    /// pass is through and created something, the categories that waited
    /// form the next pass; when it created nothing, each of them gets the
    /// "parent not found" error and the import stops. A category handed
    /// out and not yet reported is handed out again.
    pub fn next_action(&mut self) -> (res: CategoryImportAction)
        requires
            old(self).wf(),
        ensures
            final(self).wf(),
            final(self).known == old(self).known,
            final(self).existing == old(self).existing,
            old(self).awaiting matches Some(c) ==> *final(self) == *old(self) && res == (CategoryImportAction::Create {
                item: c,
                parent_id: match c.parent_name {
                    Some(p) => id_named(pairs_view(old(self).known@), p@),
                    None => None,
                },
            }),
            old(self).awaiting is None ==> {
                let kv = pairs_view(old(self).known@);
                let rest = old(self).deferred@ + defers(kv, old(self).pass@.subrange(old(self).pos as int, old(self).pass@.len() as int));
                match res {
                    CategoryImportAction::Create { item, parent_id } => {
                        &&& final(self).awaiting == Some(item)
                        &&& item == final(self).pass@[final(self).pos - 1]
                        &&& pass_step(kv, item) == CategoryStep::Create
                        &&& parent_id == match item.parent_name {
                            Some(p) => id_named(kv, p@),
                            None => None,
                        }
                        &&& final(self).errors == old(self).errors
                        &&& if first_create_at(kv, old(self).pass@, old(self).pos as int, final(self).pos - 1) {
                            &&& final(self).pass == old(self).pass
                            &&& final(self).progress == old(self).progress
                            &&& final(self).deferred@ == old(self).deferred@ + defers(kv, old(self).pass@.subrange(old(self).pos as int, final(self).pos - 1))
                        } else {
                            &&& old(self).progress
                            &&& none_to_create(kv, old(self).pass@, old(self).pos as int)
                            &&& final(self).pass@ == rest
                            &&& !final(self).progress
                            &&& first_create_at(kv, rest, 0, final(self).pos - 1)
                            &&& final(self).deferred@ == defers(kv, rest.subrange(0, final(self).pos - 1))
                        }
                    },
                    CategoryImportAction::Done => {
                        let left = if old(self).progress { defers(kv, rest) } else { rest };
                        &&& none_to_create(kv, old(self).pass@, old(self).pos as int)
                        &&& old(self).progress ==> none_to_create(kv, rest, 0)
                        &&& final(self).pass@.len() == 0
                        &&& final(self).deferred@.len() == 0
                        &&& !final(self).progress
                        &&& final(self).awaiting is None
                        &&& texts_of(final(self).errors@) == texts_of(old(self).errors@) + unresolved_texts(left)
                    },
                }
            },
    {
        if let Some(c) = &self.awaiting {
            let item = copy_import(c);
            let parent_id = match &item.parent_name {
                Some(p) => find_named(&self.known, p),
                None => None,
            };
            return CategoryImportAction::Create { item, parent_id };
        }
        let ghost kv = pairs_view(self.known@);
        let ghost o = *self;
        if self.scan() {
            let item = copy_import(&self.pass[self.pos - 1]);
            let parent_id = match &item.parent_name {
                Some(p) => find_named(&self.known, p),
                None => None,
            };
            self.awaiting = Some(copy_import(&item));
            return CategoryImportAction::Create { item, parent_id };
        }
        let ghost rest = self.deferred@;
        if self.progress {
            let mut next: Vec<CategoryImport> = Vec::new();
            std::mem::swap(&mut next, &mut self.deferred);
            self.pass = next;
            self.pos = 0;
            self.progress = false;
            assert(self.pass@ == rest);
            if self.scan() {
                assert(self.deferred@ =~= defers(kv, rest.subrange(0, self.pos - 1)));
                let item = copy_import(&self.pass[self.pos - 1]);
                let parent_id = match &item.parent_name {
                    Some(p) => find_named(&self.known, p),
                    None => None,
                };
                self.awaiting = Some(copy_import(&item));
                return CategoryImportAction::Create { item, parent_id };
            }
            assert(self.deferred@ =~= defers(kv, rest.subrange(0, rest.len() as int)));
            assert(rest.subrange(0, rest.len() as int) =~= rest);
        }
        let ghost left = self.deferred@;
        let ghost e0 = self.errors@;
        let ghost k0 = self.known;
        let ghost x0 = self.existing;
        let mut k: usize = 0;
        while k < self.deferred.len()
            invariant
                self.wf(),
                self.known == k0,
                self.existing == x0,
                self.awaiting is None,
                k <= self.deferred@.len(),
                self.deferred@ == left,
                texts_of(self.errors@) == texts_of(e0) + unresolved_texts(left.take(k as int)),
            decreases self.deferred@.len() - k,
        {
            let m = unresolved_parent_message(&self.deferred[k]);
            let ghost eb = self.errors@;
            self.errors.push(m);
            assert(texts_of(self.errors@) =~= texts_of(eb).push(m@));
            assert(left.take(k + 1) =~= left.take(k as int).push(left[k as int]));
            assert(unresolved_texts(left.take(k + 1)) =~= unresolved_texts(left.take(k as int)).push(
                unresolved_parent_text(left[k as int]),
            ));
            assert(texts_of(self.errors@) =~= texts_of(e0) + unresolved_texts(left.take(k + 1)));
            k += 1;
        }
        assert(left.take(left.len() as int) =~= left);
        self.pass = Vec::new();
        self.pos = 0;
        self.deferred = Vec::new();
        self.progress = false;
        CategoryImportAction::Done
    }

    /// Reports the outcome of creating the category handed out last: its
    /// new id, or the error the store gave.
    pub fn record(&mut self, outcome: Result<i64, String>)
        requires
            old(self).wf(),
        ensures
            final(self).wf(),
            final(self).existing == old(self).existing,
            final(self).pass == old(self).pass,
            final(self).pos == old(self).pos,
            final(self).deferred == old(self).deferred,
            final(self).awaiting is None,
            match old(self).awaiting {
                None => final(self).known == old(self).known && final(self).progress == old(self).progress
                    && final(self).errors == old(self).errors,
                Some(c) => match outcome {
                    Ok(id) => {
                        &&& pairs_view(final(self).known@) == pairs_view(old(self).known@).push((c.name@, id))
                        &&& final(self).progress
                        &&& final(self).errors == old(self).errors
                    },
                    Err(e) => {
                        &&& final(self).known == old(self).known
                        &&& final(self).progress == old(self).progress
                        &&& texts_of(final(self).errors@) == texts_of(old(self).errors@).push(
                            "category \""@ + c.name@ + "\": "@ + e@,
                        )
                    },
                },
            },
    {
        let mut taken: Option<CategoryImport> = None;
        std::mem::swap(&mut taken, &mut self.awaiting);
        if let Some(c) = taken {
            match outcome {
                Ok(id) => {
                    self.known.push((c.name, id));
                    self.progress = true;
                    assert(pairs_view(self.known@) =~= pairs_view(old(self).known@).push((c.name@, id)));
                },
                Err(e) => {
                    let mut m = String::from_str("category \"");
                    m.append(c.name.as_str());
                    m.append("\": ");
                    m.append(e.as_str());
                    self.errors.push(m);
                    assert(texts_of(self.errors@) =~= texts_of(old(self).errors@).push(
                        "category \""@ + c.name@ + "\": "@ + e@,
                    ));
                },
            }
        }
    }
}

// ---------------------------------------------------------------------------
// Accounts
// ---------------------------------------------------------------------------

/// An exported account.
#[derive(Debug, Clone)]
pub struct AccountImport {
    pub name: String,
    pub account_type: String,
}

/// Previews the import of accounts: those whose name exists are skipped.
pub fn preview_accounts(existing: &Vec<String>, items: &Vec<AccountImport>) -> (res: Vec<ImportPreviewItem>)
    ensures
        res@.len() == items@.len(),
        forall|i: int|
            0 <= i < items@.len() ==> {
                let skip = names_view(existing@).contains(items@[i].name@);
                &&& (#[trigger] res@[i]).status == (if skip {
                    ImportPreviewStatus::Skipped
                } else {
                    ImportPreviewStatus::Valid
                })
                &&& res@[i].reason@ == (if skip {
                    "already exists"@
                } else {
                    Seq::<char>::empty()
                })
                &&& cells_view(res@[i]) == seq![items@[i].name@, items@[i].account_type@]
            },
{
    let mut out: Vec<ImportPreviewItem> = Vec::new();
    let mut i: usize = 0;
    while i < items.len()
        invariant
            i <= items@.len(),
            out@.len() == i,
            forall|t: int|
                0 <= t < i ==> {
                    let skip = names_view(existing@).contains(items@[t].name@);
                    &&& (#[trigger] out@[t]).status == (if skip {
                        ImportPreviewStatus::Skipped
                    } else {
                        ImportPreviewStatus::Valid
                    })
                    &&& out@[t].reason@ == (if skip {
                        "already exists"@
                    } else {
                        Seq::<char>::empty()
                    })
                    &&& cells_view(out@[t]) == seq![items@[t].name@, items@[t].account_type@]
                },
        decreases items@.len() - i,
    {
        let item = &items[i];
        let mut cells: Vec<String> = Vec::new();
        cells.push(item.name.clone());
        cells.push(item.account_type.clone());
        assert(names_view(cells@) =~= seq![item.name@, item.account_type@]);
        let (status, reason) = if contains_name(existing, &item.name) {
            (ImportPreviewStatus::Skipped, String::from_str("already exists"))
        } else {
            (ImportPreviewStatus::Valid, String::new())
        };
        out.push(ImportPreviewItem { status, reason, cells });
        i += 1;
    }
    out
}

/// The accounts of the file whose name does not exist yet, in order.
pub fn accounts_to_create(existing: &Vec<String>, items: &Vec<AccountImport>) -> (res: Vec<AccountImport>)
    ensures
        res@.map_values(|a: AccountImport| (a.name@, a.account_type@)) == items@.filter(
            |a: AccountImport| !names_view(existing@).contains(a.name@),
        ).map_values(|a: AccountImport| (a.name@, a.account_type@)),
{
    let ghost keep = |a: AccountImport| !names_view(existing@).contains(a.name@);
    let ghost f = |a: AccountImport| (a.name@, a.account_type@);
    let mut out: Vec<AccountImport> = Vec::new();
    let mut i: usize = 0;
    while i < items.len()
        invariant
            i <= items@.len(),
            keep == (|a: AccountImport| !names_view(existing@).contains(a.name@)),
            f == (|a: AccountImport| (a.name@, a.account_type@)),
            out@.map_values(f) == items@.take(i as int).filter(keep).map_values(f),
        decreases items@.len() - i,
    {
        let ghost before = out@;
        assert(items@.take(i + 1).drop_last() =~= items@.take(i as int));
        reveal_with_fuel(Seq::filter, 1);
        if !contains_name(existing, &items[i].name) {
            let a = AccountImport { name: items[i].name.clone(), account_type: items[i].account_type.clone() };
            out.push(a);
            assert(out@.map_values(f) =~= before.map_values(f).push(f(items@[i as int])));
        }
        assert(out@.map_values(f) =~= items@.take(i + 1).filter(keep).map_values(f));
        i += 1;
    }
    assert(items@.take(items@.len() as int) =~= items@);
    out
}

pub fn account_import_message(created: u64) -> (res: String)
    ensures
        res@ == "Successfully imported "@ + decimal(created as nat) + " accounts"@,
{
    let mut s = String::from_str("Successfully imported ");
    push_decimal(&mut s, created);
    s.append(" accounts");
    s
}

// ---------------------------------------------------------------------------
// Rules and the summary of an import
// ---------------------------------------------------------------------------

/// The id of the last entry named `n` (a map built from the list keeps
/// the last one).
pub open spec fn id_named(list: Seq<(Seq<char>, i64)>, n: Seq<char>) -> Option<i64>
    decreases list.len(),
{
    if list.len() == 0 {
        None
    } else if list.last().0 == n {
        Some(list.last().1)
    } else {
        id_named(list.drop_last(), n)
    }
}

pub open spec fn pairs_view(v: Seq<(String, i64)>) -> Seq<(Seq<char>, i64)> {
    v.map_values(|p: (String, i64)| (p.0@, p.1))
}

/// The value stored for an imported rule: the id of the category or tag
/// it names, as text; or the error reported when there is none.
pub open spec fn rule_action_text(
    r: RuleImport,
    categories: Seq<(Seq<char>, i64)>,
    tags: Seq<(Seq<char>, i64)>,
) -> Result<Seq<char>, Seq<char>> {
    let (list, kind) = match r.action_type {
        RuleActionType::AssignCategory => (categories, "category"@),
        RuleActionType::AssignTag => (tags, "tag"@),
    };
    match id_named(list, r.action_value@) {
        Some(id) => Ok(int_text(id as int)),
        None => Err("rule \""@ + r.name@ + "\": "@ + kind + " \""@ + r.action_value@ + "\" not found"@),
    }
}

fn find_named(list: &Vec<(String, i64)>, n: &String) -> (res: Option<i64>)
    ensures
        res == id_named(pairs_view(list@), n@),
{
    let ghost pv = pairs_view(list@);
    let mut k: usize = list.len();
    assert(pv.take(k as int) =~= pv);
    while k > 0
        invariant
            k <= list@.len(),
            pv == pairs_view(list@),
            id_named(pv, n@) == id_named(pv.take(k as int), n@),
        decreases k,
    {
        assert(pv.take(k as int).drop_last() =~= pv.take(k - 1));
        assert(pv.take(k as int).last() == pv[k - 1]);
        if list[k - 1].0 == *n {
            return Some(list[k - 1].1);
        }
        k -= 1;
    }
    None
}

/// Resolves the category or tag an imported rule names (see
/// `rule_action_text`).
pub fn resolve_rule_action(
    r: &RuleImport,
    categories: &Vec<(String, i64)>,
    tags: &Vec<(String, i64)>,
) -> (res: Result<String, String>)
    ensures
        match (res, rule_action_text(*r, pairs_view(categories@), pairs_view(tags@))) {
            (Ok(a), Ok(b)) => a@ == b,
            (Err(a), Err(b)) => a@ == b,
            _ => false,
        },
{
    let (found, kind) = match r.action_type {
        RuleActionType::AssignCategory => (find_named(categories, &r.action_value), "category"),
        RuleActionType::AssignTag => (find_named(tags, &r.action_value), "tag"),
    };
    match found {
        Some(id) => {
            let mut s = String::new();
            push_i64(&mut s, id);
            assert(s@ =~= int_text(id as int));
            Ok(s)
        },
        None => {
            let mut m = String::from_str("rule \"");
            m.append(r.name.as_str());
            m.append("\": ");
            m.append(kind);
            m.append(" \"");
            m.append(r.action_value.as_str());
            m.append("\" not found");
            Err(m)
        },
    }
}

/// The message that sums up an import.
pub open spec fn import_summary_text(categories: nat, tags: nat, rules: nat, errors: nat) -> Seq<char> {
    "Imported "@ + decimal(categories) + " categories, "@ + decimal(tags) + " tags, "@ + decimal(rules) + " rules"@
        + if errors == 0 {
        Seq::<char>::empty()
    } else {
        " ("@ + decimal(errors) + " errors)"@
    }
}

pub fn import_summary_message(categories: u64, tags: u64, rules: u64, errors: u64) -> (res: String)
    ensures
        res@ == import_summary_text(categories as nat, tags as nat, rules as nat, errors as nat),
{
    let mut s = String::from_str("Imported ");
    push_decimal(&mut s, categories);
    s.append(" categories, ");
    push_decimal(&mut s, tags);
    s.append(" tags, ");
    push_decimal(&mut s, rules);
    s.append(" rules");
    if errors > 0 {
        s.append(" (");
        push_decimal(&mut s, errors);
        s.append(" errors)");
    }
    s
}

// ---------------------------------------------------------------------------
// Export
// ---------------------------------------------------------------------------

/// The name of the category with id `id` (the last one with it).
pub open spec fn category_name_of(cats: Seq<Category>, id: i64) -> Option<Seq<char>> {
    match last_with_id(cats, id) {
        Some(i) => Some(cats[i].name@),
        None => None,
    }
}

/// A category as exported: its parent by name.
pub open spec fn exported_category(cats: Seq<Category>, c: Category) -> (Seq<char>, Option<Seq<char>>, Seq<char>, Seq<char>) {
    (
        c.name@,
        match c.parent_id {
            Some(p) => category_name_of(cats, p),
            None => None,
        },
        c.color@,
        c.icon@,
    )
}

pub open spec fn category_import_view(c: CategoryImport) -> (Seq<char>, Option<Seq<char>>, Seq<char>, Seq<char>) {
    (
        c.name@,
        match c.parent_name {
            Some(p) => Some(p@),
            None => None,
        },
        c.color@,
        c.icon@,
    )
}

/// The exported categories: those that are not built in, in order.
pub open spec fn exported_categories(cats: Seq<Category>, rest: Seq<Category>) -> Seq<
    (Seq<char>, Option<Seq<char>>, Seq<char>, Seq<char>),
>
    decreases rest.len(),
{
    if rest.len() == 0 {
        seq![]
    } else {
        let r = exported_categories(cats, rest.drop_last());
        if rest.last().built_in {
            r
        } else {
            r.push(exported_category(cats, rest.last()))
        }
    }
}

/// The categories to export (see `exported_categories`).
pub fn export_categories(cats: &Vec<Category>) -> (res: Vec<CategoryImport>)
    ensures
        res@.map_values(|c: CategoryImport| category_import_view(c)) == exported_categories(cats@, cats@),
{
    let ghost f = |c: CategoryImport| category_import_view(c);
    let mut out: Vec<CategoryImport> = Vec::new();
    let mut i: usize = 0;
    assert(out@.map_values(f) =~= Seq::<(Seq<char>, Option<Seq<char>>, Seq<char>, Seq<char>)>::empty());
    while i < cats.len()
        invariant
            i <= cats@.len(),
            f == (|c: CategoryImport| category_import_view(c)),
            out@.map_values(f) == exported_categories(cats@, cats@.take(i as int)),
        decreases cats@.len() - i,
    {
        assert(cats@.take(i + 1).drop_last() =~= cats@.take(i as int));
        assert(cats@.take(i + 1).last() == cats@[i as int]);
        let c = &cats[i];
        if !c.built_in {
            let parent_name = match c.parent_id {
                Some(p) => match find_last(cats, p) {
                    Some(k) => Some(cats[k].name.clone()),
                    None => None,
                },
                None => None,
            };
            let e = CategoryImport { name: c.name.clone(), parent_name, color: c.color.clone(), icon: c.icon.clone() };
            let ghost before = out@;
            out.push(e);
            assert(out@.map_values(f) =~= before.map_values(f).push(exported_category(cats@, cats@[i as int])));
        }
        i += 1;
    }
    assert(cats@.take(cats@.len() as int) =~= cats@);
    out
}

pub open spec fn tag_import_view(t: TagImport) -> (Seq<char>, Seq<char>, TagStyle) {
    (t.name@, t.color@, t.style)
}

/// The tags to export, in order.
pub fn export_tags(tags: &Vec<Tag>) -> (res: Vec<TagImport>)
    ensures
        res@.map_values(|t: TagImport| tag_import_view(t)) == tags@.map_values(|t: Tag| (t.name@, t.color@, t.style)),
{
    let ghost f = |t: TagImport| tag_import_view(t);
    let ghost g = |t: Tag| (t.name@, t.color@, t.style);
    let mut out: Vec<TagImport> = Vec::new();
    let mut i: usize = 0;
    while i < tags.len()
        invariant
            i <= tags@.len(),
            f == (|t: TagImport| tag_import_view(t)),
            g == (|t: Tag| (t.name@, t.color@, t.style)),
            out@.map_values(f) == tags@.take(i as int).map_values(g),
        decreases tags@.len() - i,
    {
        let t = &tags[i];
        let ghost before = out@;
        out.push(TagImport { name: t.name.clone(), color: t.color.clone(), style: t.style });
        assert(out@.map_values(f) =~= before.map_values(f).push(g(tags@[i as int])));
        assert(tags@.take(i + 1).map_values(g) =~= tags@.take(i as int).map_values(g).push(g(tags@[i as int])));
        i += 1;
    }
    assert(tags@.take(tags@.len() as int) =~= tags@);
    out
}

/// The name the last entry whose id, written out, is `v` carries.
pub open spec fn name_for_id_text(entries: Seq<(i64, Seq<char>)>, v: Seq<char>) -> Option<Seq<char>>
    decreases entries.len(),
{
    if entries.len() == 0 {
        None
    } else if int_text(entries.last().0 as int) == v {
        Some(entries.last().1)
    } else {
        name_for_id_text(entries.drop_last(), v)
    }
}

pub open spec fn category_entries(cats: Seq<Category>) -> Seq<(i64, Seq<char>)> {
    cats.map_values(|c: Category| (c.id, c.name@))
}

pub open spec fn tag_entries(tags: Seq<Tag>) -> Seq<(i64, Seq<char>)> {
    tags.map_values(|t: Tag| (t.id, t.name@))
}

/// A rule as exported: the category or tag it assigns by name, where its
/// value names one, else the value as it is.
pub open spec fn exported_rule(r: Rule, cats: Seq<Category>, tags: Seq<Tag>) -> (Seq<char>, Seq<char>, RuleActionType, Seq<char>) {
    let entries = match r.action_type {
        RuleActionType::AssignCategory => category_entries(cats),
        RuleActionType::AssignTag => tag_entries(tags),
    };
    (r.name@, r.pattern@, r.action_type, match name_for_id_text(entries, r.action_value@) {
        Some(n) => n,
        None => r.action_value@,
    })
}

pub open spec fn rule_import_view(r: RuleImport) -> (Seq<char>, Seq<char>, RuleActionType, Seq<char>) {
    (r.name@, r.pattern@, r.action_type, r.action_value@)
}

fn name_for_value(entries: &Vec<(i64, String)>, v: &String) -> (res: Option<String>)
    ensures
        match res {
            Some(n) => name_for_id_text(entries@.map_values(|e: (i64, String)| (e.0, e.1@)), v@) == Some(n@),
            None => name_for_id_text(entries@.map_values(|e: (i64, String)| (e.0, e.1@)), v@) is None,
        },
{
    let ghost ev = entries@.map_values(|e: (i64, String)| (e.0, e.1@));
    let mut k: usize = entries.len();
    assert(ev.take(k as int) =~= ev);
    while k > 0
        invariant
            k <= entries@.len(),
            ev == entries@.map_values(|e: (i64, String)| (e.0, e.1@)),
            name_for_id_text(ev, v@) == name_for_id_text(ev.take(k as int), v@),
        decreases k,
    {
        assert(ev.take(k as int).drop_last() =~= ev.take(k - 1));
        assert(ev.take(k as int).last() == ev[k - 1]);
        let mut id_text = String::new();
        push_i64(&mut id_text, entries[k - 1].0);
        if id_text == *v {
            return Some(entries[k - 1].1.clone());
        }
        k -= 1;
    }
    None
}

/// The rules to export, in order (see `exported_rule`).
pub fn export_rules(rules: &Vec<Rule>, cats: &Vec<Category>, tags: &Vec<Tag>) -> (res: Vec<RuleImport>)
    ensures
        res@.map_values(|r: RuleImport| rule_import_view(r)) == rules@.map_values(
            |r: Rule| exported_rule(r, cats@, tags@),
        ),
{
    let mut cat_entries: Vec<(i64, String)> = Vec::new();
    let mut i: usize = 0;
    while i < cats.len()
        invariant
            i <= cats@.len(),
            cat_entries@.map_values(|e: (i64, String)| (e.0, e.1@)) == category_entries(cats@.take(i as int)),
        decreases cats@.len() - i,
    {
        let ghost before = cat_entries@.map_values(|e: (i64, String)| (e.0, e.1@));
        cat_entries.push((cats[i].id, cats[i].name.clone()));
        assert(cat_entries@.map_values(|e: (i64, String)| (e.0, e.1@)) =~= before.push((cats@[i as int].id, cats@[i as int].name@)));
        assert(category_entries(cats@.take(i + 1)) =~= category_entries(cats@.take(i as int)).push(
            (cats@[i as int].id, cats@[i as int].name@),
        ));
        i += 1;
    }
    assert(cats@.take(cats@.len() as int) =~= cats@);
    let mut tag_list: Vec<(i64, String)> = Vec::new();
    let mut j: usize = 0;
    while j < tags.len()
        invariant
            j <= tags@.len(),
            tag_list@.map_values(|e: (i64, String)| (e.0, e.1@)) == tag_entries(tags@.take(j as int)),
        decreases tags@.len() - j,
    {
        let ghost before = tag_list@.map_values(|e: (i64, String)| (e.0, e.1@));
        tag_list.push((tags[j].id, tags[j].name.clone()));
        assert(tag_list@.map_values(|e: (i64, String)| (e.0, e.1@)) =~= before.push((tags@[j as int].id, tags@[j as int].name@)));
        assert(tag_entries(tags@.take(j + 1)) =~= tag_entries(tags@.take(j as int)).push(
            (tags@[j as int].id, tags@[j as int].name@),
        ));
        j += 1;
    }
    assert(tags@.take(tags@.len() as int) =~= tags@);
    let ghost f = |r: RuleImport| rule_import_view(r);
    let ghost g = |r: Rule| exported_rule(r, cats@, tags@);
    let mut out: Vec<RuleImport> = Vec::new();
    let mut k: usize = 0;
    while k < rules.len()
        invariant
            k <= rules@.len(),
            f == (|r: RuleImport| rule_import_view(r)),
            g == (|r: Rule| exported_rule(r, cats@, tags@)),
            cat_entries@.map_values(|e: (i64, String)| (e.0, e.1@)) == category_entries(cats@),
            tag_list@.map_values(|e: (i64, String)| (e.0, e.1@)) == tag_entries(tags@),
            out@.map_values(f) == rules@.take(k as int).map_values(g),
        decreases rules@.len() - k,
    {
        let r = &rules[k];
        let found = match r.action_type {
            RuleActionType::AssignCategory => name_for_value(&cat_entries, &r.action_value),
            RuleActionType::AssignTag => name_for_value(&tag_list, &r.action_value),
        };
        let value = match found {
            Some(n) => n,
            None => r.action_value.clone(),
        };
        let ghost before = out@;
        out.push(RuleImport { name: r.name.clone(), pattern: r.pattern.clone(), action_type: r.action_type, action_value: value });
        assert(out@.map_values(f) =~= before.map_values(f).push(g(rules@[k as int])));
        assert(rules@.take(k + 1).map_values(g) =~= rules@.take(k as int).map_values(g).push(g(rules@[k as int])));
        k += 1;
    }
    assert(rules@.take(rules@.len() as int) =~= rules@);
    out
}

/// A new rule is previewed as valid exactly when what it assigns is
/// known: a tag rule's value among the tag names, a category rule's among
/// the category names. A rule whose name exists is skipped.
pub proof fn lemma_rule_valid_iff_target_known(
    existing_rules: Seq<Seq<char>>,
    category_names: Seq<Seq<char>>,
    tag_names: Seq<Seq<char>>,
    r: RuleImport,
)
    ensures
        existing_rules.contains(r.name@) ==> rule_verdict(existing_rules, category_names, tag_names, r).0
            == ImportPreviewStatus::Skipped,
        !existing_rules.contains(r.name@) && r.action_type == RuleActionType::AssignTag ==> (rule_verdict(
            existing_rules,
            category_names,
            tag_names,
            r,
        ).0 == ImportPreviewStatus::Valid <==> tag_names.contains(r.action_value@)),
        !existing_rules.contains(r.name@) && r.action_type == RuleActionType::AssignCategory ==> (rule_verdict(
            existing_rules,
            category_names,
            tag_names,
            r,
        ).0 == ImportPreviewStatus::Valid <==> category_names.contains(r.action_value@)),
{
}

/// The verdict on a tag rule does not depend on the category names, nor
/// that on a category rule on the tag names.
pub proof fn lemma_rule_verdict_ignores_other_kind(
    existing_rules: Seq<Seq<char>>,
    cats1: Seq<Seq<char>>,
    cats2: Seq<Seq<char>>,
    tags1: Seq<Seq<char>>,
    tags2: Seq<Seq<char>>,
    r: RuleImport,
)
    ensures
        r.action_type == RuleActionType::AssignTag ==> rule_verdict(existing_rules, cats1, tags1, r) == rule_verdict(
            existing_rules,
            cats2,
            tags1,
            r,
        ),
        r.action_type == RuleActionType::AssignCategory ==> rule_verdict(existing_rules, cats1, tags1, r)
            == rule_verdict(existing_rules, cats1, tags2, r),
{
}

/// A new category is previewed as valid exactly when it has no parent or
/// its parent is among the known names; a tag exactly when its name is new.
pub proof fn lemma_category_and_tag_verdicts(
    existing: Seq<Seq<char>>,
    all: Seq<Seq<char>>,
    c: CategoryImport,
    t: TagImport,
)
    ensures
        category_verdict(existing, all, c).0 == ImportPreviewStatus::Valid <==> (!existing.contains(c.name@) && (
        c.parent_name is None || all.contains(c.parent_name->0@))),
        tag_verdict(existing, t).0 == ImportPreviewStatus::Valid <==> !existing.contains(t.name@),
{
}

} // verus!
