//! Searching the index.

use crate::document::{file_document, first_value, ArchiveDocument, FieldModel, FileModel};
use crate::extract::first_value_at;
use crate::metadata::{field_i64, field_text, field_u64, i64_of_field, text_of_field, u64_of_field};
use crate::path::opt_text;
use crate::schema::Field;
use crate::text::{texts, to_upper, trim, trimmed, uppered};
use vstd::prelude::*;

verus! {

/// What is searched for. There has to be a query or an extension; extensions alone
/// list all files that have one of them.
#[derive(Debug)]
pub struct SearchOpts {
    /// The full-text query, which may be empty.
    pub query: String,
    /// The extensions of files, of which one has to match.
    pub ext: Vec<String>,
    /// The largest number of hits.
    pub limit: usize,
}

impl Default for SearchOpts {
    fn default() -> (r: Self)
        ensures
            r.query@ == Seq::<char>::empty(),
            r.ext@.len() == 0,
            r.limit == 0,
    {
        let query = String::new();
        assert(query@ =~= Seq::empty());
        SearchOpts { query, ext: Vec::new(), limit: 0 }
    }
}

/// A search without a query and without an extension.
#[derive(Clone, Copy, Debug, PartialEq, Eq, Structural)]
pub struct NothingToSearch;

/// How the index is searched.
#[derive(Debug)]
pub struct SearchPlan {
    /// The query to parse; all documents where there is none.
    pub query: Option<String>,
    /// The extensions, in capitals, of which one has to match; any will do where
    /// there are none.
    pub ext: Vec<String>,
    /// The largest number of hits; with zero there is nothing to do.
    pub limit: usize,
}

/// Extensions in capitals.
pub open spec fn upper_all(ext: Seq<Seq<char>>) -> Seq<Seq<char>> {
    Seq::new(ext.len(), |i: int| uppered(ext[i]))
}

/// Whether a query holds anything but white space.
pub open spec fn has_query(query: Seq<char>) -> bool {
    trimmed(query).len() > 0
}

/// Plans a search.
pub fn build_query(opts: &SearchOpts) -> (r: Result<SearchPlan, NothingToSearch>)
    ensures
        match r {
            Ok(plan) => {
                &&& has_query(opts.query@) || opts.ext@.len() > 0
                &&& opt_text(plan.query) == (if has_query(opts.query@) {
                    Some(opts.query@)
                } else {
                    None
                })
                &&& texts(plan.ext@) == upper_all(texts(opts.ext@))
                &&& plan.limit == opts.limit
            },
            Err(_) => !has_query(opts.query@) && opts.ext@.len() == 0,
        },
{
    let bare: String = trim(opts.query.as_str());
    let asked: bool = !bare.as_str().is_empty();
    if !asked && opts.ext.len() == 0 {
        return Err(NothingToSearch);
    }
    let query: Option<String> = if asked {
        Some(opts.query.clone())
    } else {
        None
    };
    let mut ext: Vec<String> = Vec::new();
    let mut i: usize = 0;
    while i < opts.ext.len()
        invariant
            i <= opts.ext@.len(),
            texts(ext@) =~= upper_all(texts(opts.ext@)).take(i as int),
        decreases opts.ext@.len() - i,
    {
        let ghost before = texts(ext@);
        let upper: String = to_upper(opts.ext[i].as_str());
        ext.push(upper);
        assert(texts(ext@) =~= before.push(upper@));
        i = i + 1;
    }
    assert(texts(ext@) =~= upper_all(texts(opts.ext@)));
    Ok(SearchPlan { query, ext, limit: opts.limit })
}

/// A file that was found.
#[derive(Debug)]
pub struct Hit {
    pub image_path: String,
    pub image_id: String,
    pub partition: u64,
    pub file_path: String,
    pub file_name: String,
    pub ext: String,
    pub size: u64,
    pub mtime: i64,
    pub excerpt: String,
}

/// A file that was found, as a mathematical value.
pub struct HitModel {
    pub image_path: Seq<char>,
    pub image_id: Seq<char>,
    pub partition: u64,
    pub file_path: Seq<char>,
    pub file_name: Seq<char>,
    pub ext: Seq<char>,
    pub size: u64,
    pub mtime: i64,
    pub excerpt: Seq<char>,
}

impl View for Hit {
    type V = HitModel;

    open spec fn view(&self) -> HitModel {
        HitModel {
            image_path: self.image_path@,
            image_id: self.image_id@,
            partition: self.partition,
            file_path: self.file_path@,
            file_name: self.file_name@,
            ext: self.ext@,
            size: self.size,
            mtime: self.mtime,
            excerpt: self.excerpt@,
        }
    }
}

/// What is shown of a document that was found; nothing in place of what it lacks.
pub open spec fn hit_of(doc: Seq<(Field, FieldModel)>) -> HitModel {
    HitModel {
        image_path: field_text(doc, Field::ImagePath),
        image_id: field_text(doc, Field::ImageId),
        partition: field_u64(doc, Field::Partition),
        file_path: field_text(doc, Field::FilePath),
        file_name: field_text(doc, Field::FileName),
        ext: field_text(doc, Field::Ext),
        size: field_u64(doc, Field::Size),
        mtime: field_i64(doc, Field::Mtime),
        excerpt: field_text(doc, Field::BodyExcerpt),
    }
}

/// What is shown of a document that was found.
pub fn doc_to_hit(doc: &ArchiveDocument) -> (r: Hit)
    ensures
        r@ == hit_of(doc@),
{
    Hit {
        image_path: text_of_field(doc, Field::ImagePath),
        image_id: text_of_field(doc, Field::ImageId),
        partition: u64_of_field(doc, Field::Partition),
        file_path: text_of_field(doc, Field::FilePath),
        file_name: text_of_field(doc, Field::FileName),
        ext: text_of_field(doc, Field::Ext),
        size: u64_of_field(doc, Field::Size),
        mtime: i64_of_field(doc, Field::Mtime),
        excerpt: text_of_field(doc, Field::BodyExcerpt),
    }
}

/// A hit gives back what the document of a file was made from.
pub proof fn hits_give_files_back(f: FileModel)
    requires
        i64::MIN <= f.mtime_unix <= i64::MAX,
    ensures
        hit_of(file_document(f)) == (HitModel {
            image_path: f.image_path,
            image_id: f.image_id,
            partition: f.partition as u64,
            file_path: f.file_path,
            file_name: f.file_name,
            ext: f.ext,
            size: f.size,
            mtime: f.mtime_unix as i64,
            excerpt: match f.excerpt {
                Some(s) => s,
                None => Seq::empty(),
            },
        }),
{
    let doc = file_document(f);
    first_value_at(doc, 0);
    first_value_at(doc, 1);
    first_value_at(doc, 2);
    first_value_at(doc, 3);
    first_value_at(doc, 4);
    first_value_at(doc, 5);
    first_value_at(doc, 6);
    first_value_at(doc, 7);
    match f.excerpt {
        Some(s) => first_value_at(doc, doc.len() - 1),
        None => no_value(doc, Field::BodyExcerpt),
    }
}

/// A field that no value has is not found.
pub proof fn no_value(doc: Seq<(Field, FieldModel)>, field: Field)
    requires
        forall|i: int| 0 <= i < doc.len() ==> (#[trigger] doc[i]).0 != field,
    ensures
        first_value(doc, field) is None,
    decreases doc.len(),
{
    if doc.len() > 0 {
        let rest = doc.skip(1);
        assert forall|i: int| 0 <= i < rest.len() implies (#[trigger] rest[i]).0 != field by {
            assert(rest[i] == doc[i + 1]);
        }
        no_value(rest, field);
    }
}

} // verus!
