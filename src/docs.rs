//! Project documentation: categories, and sections grouped by category.
use vstd::prelude::*;
use crate::text::str_eq;

verus! {

/// One page of documentation. Times are Unix timestamps in microseconds.
pub struct DocSection {
    pub id: String,
    pub title: String,
    pub slug: String,
    pub content: String,
    pub parent_id: Option<String>,
    pub order: i32,
    pub created_at: i64,
    pub updated_at: i64,
    pub source_url: Option<String>,
    pub is_translated: bool,
}

/// A group of documentation pages.
pub struct DocCategory {
    pub id: String,
    pub name: String,
    pub slug: String,
    pub description: String,
    pub order: i32,
    pub icon: Option<String>,
}

/// A project's documentation. Section groups are kept in the order their
/// categories were first used, and no category id appears twice.
pub struct Documentation {
    pub project_name: String,
    pub project_url: String,
    pub version: String,
    pub categories: Vec<DocCategory>,
    pub sections: Vec<(String, Vec<DocSection>)>,
}

pub type Group = (Seq<char>, Seq<DocSection>);

pub open spec fn derefs(v: Seq<&DocSection>) -> Seq<DocSection> {
    v.map_values(|s: &DocSection| *s)
}

impl Documentation {
    /// The section groups: category id and its sections in insertion order.
    pub open spec fn groups(&self) -> Seq<Group> {
        self.sections@.map_values(|g: (String, Vec<DocSection>)| (g.0@, g.1@))
    }

    pub open spec fn wf(&self) -> bool {
        forall|i: int, j: int|
            0 <= i < self.groups().len() && 0 <= j < self.groups().len() && i != j
                ==> self.groups()[i].0 != self.groups()[j].0
    }

    /// Empty documentation for a project.
    pub fn new(project_name: String, project_url: String, version: String) -> (r: Self)
        ensures
            r.wf(),
            r.project_name == project_name,
            r.project_url == project_url,
            r.version == version,
            r.categories@.len() == 0,
            r.groups().len() == 0,
    {
        let r = Documentation {
            project_name,
            project_url,
            version,
            categories: Vec::new(),
            sections: Vec::new(),
        };
        assert(r.groups() =~= Seq::<Group>::empty());
        r
    }

    /// Adds a category at the end.
    pub fn add_category(&mut self, category: DocCategory)
        ensures
            final(self).categories@ == old(self).categories@.push(category),
            final(self).groups() == old(self).groups(),
    {
        self.categories.push(category);
    }

    fn group_index(&self, category_id: &str) -> (r: Option<usize>)
        ensures
            match r {
                Some(i) => i < self.groups().len() && self.groups()[i as int].0 == category_id@,
                None => forall|i: int| 0 <= i < self.groups().len() ==> self.groups()[i].0 != category_id@,
            },
    {
        let mut i: usize = 0;
        while i < self.sections.len()
            invariant
                i <= self.sections@.len(),
                forall|k: int| 0 <= k < i ==> self.groups()[k].0 != category_id@,
            decreases self.sections.len() - i,
        {
            if str_eq(self.sections[i].0.as_str(), category_id) {
                return Some(i);
            }
            i += 1;
        }
        None
    }

    /// Adds a section at the end of its category's group, starting the group
    /// if the category has none yet.
    pub fn add_section(&mut self, category_id: String, section: DocSection)
        requires
            old(self).wf(),
        ensures
            final(self).wf(),
            final(self).categories == old(self).categories,
            (exists|i: int|
                0 <= i < old(self).groups().len() && old(self).groups()[i].0 == category_id@
                    && final(self).groups() == old(self).groups().update(
                    i,
                    (category_id@, old(self).groups()[i].1.push(section)),
                )) || ((forall|i: int|
                0 <= i < old(self).groups().len() ==> old(self).groups()[i].0 != category_id@)
                && final(self).groups() == old(self).groups().push((category_id@, seq![section]))),
    {
        let ghost before = self.groups();
        match self.group_index(category_id.as_str()) {
            Some(i) => {
                let mut group = self.sections.remove(i);
                group.1.push(section);
                self.sections.insert(i, group);
                proof {
                    assert(self.groups() =~= before.update(i as int, (category_id@, before[i as int].1.push(section))));
                }
            },
            None => {
                let ghost key = category_id@;
                let mut group: Vec<DocSection> = Vec::new();
                group.push(section);
                self.sections.push((category_id, group));
                proof {
                    assert(self.groups() =~= before.push((key, seq![section])));
                }
            },
        }
    }

    /// The sections of a category, in insertion order; none when it has none.
    pub fn get_sections_by_category(&self, category_id: &str) -> (r: Vec<&DocSection>)
        requires
            self.wf(),
        ensures
            match self.find_group(category_id@) {
                Some(i) => derefs(r@) == self.groups()[i].1,
                None => r@.len() == 0,
            },
    {
        match self.group_index(category_id) {
            Some(i) => {
                let sections = &self.sections[i].1;
                proof {
                    let j = self.find_group(category_id@)->0;
                    assert(self.groups()[j].0 == category_id@);
                    assert(i == j);
                    assert(self.groups()[i as int].1 == sections@);
                }
                let mut r: Vec<&DocSection> = Vec::new();
                let mut k: usize = 0;
                while k < sections.len()
                    invariant
                        k <= sections@.len(),
                        derefs(r@) == sections@.take(k as int),
                    decreases sections.len() - k,
                {
                    let ghost prev = r@;
                    r.push(&sections[k]);
                    assert(r@ == prev.push(&sections[k as int]));
                    assert(derefs(r@) =~= derefs(prev).push(sections@[k as int]));
                    k += 1;
                    assert(derefs(r@) =~= sections@.take(k as int));
                }
                assert(derefs(r@) =~= sections@);
                r
            },
            None => Vec::new(),
        }
    }

    /// The group of a category id, if it has one.
    pub open spec fn find_group(&self, category_id: Seq<char>) -> Option<int> {
        if exists|i: int| 0 <= i < self.groups().len() && self.groups()[i].0 == category_id {
            Some(choose|i: int| 0 <= i < self.groups().len() && self.groups()[i].0 == category_id)
        } else {
            None
        }
    }

    /// A section with the given slug, searching the groups in order.
    pub fn get_section_by_slug(&self, slug: &str) -> (r: Option<&DocSection>)
        ensures
            match r {
                Some(s) => s.slug@ == slug@ && exists|i: int, k: int|
                    0 <= i < self.groups().len() && 0 <= k < self.groups()[i].1.len()
                        && self.groups()[i].1[k] == *s,
                None => forall|i: int, k: int|
                    0 <= i < self.groups().len() && 0 <= k < self.groups()[i].1.len()
                        ==> self.groups()[i].1[k].slug@ != slug@,
            },
    {
        let mut i: usize = 0;
        while i < self.sections.len()
            invariant
                i <= self.sections@.len(),
                forall|a: int, k: int|
                    0 <= a < i && 0 <= k < self.groups()[a].1.len() ==> self.groups()[a].1[k].slug@ != slug@,
            decreases self.sections.len() - i,
        {
            let group = &self.sections[i].1;
            assert(group@ == self.groups()[i as int].1);
            let mut k: usize = 0;
            while k < group.len()
                invariant
                    k <= group@.len(),
                    i < self.sections@.len(),
                    group@ == self.groups()[i as int].1,
                    forall|m: int| 0 <= m < k ==> group@[m].slug@ != slug@,
                decreases group.len() - k,
            {
                if str_eq(group[k].slug.as_str(), slug) {
                    assert(self.groups()[i as int].1[k as int] == group@[k as int]);
                    return Some(&group[k]);
                }
                k += 1;
            }
            assert(self.groups()[i as int].1 == group@);
            i += 1;
        }
        None
    }
}

} // verus!
