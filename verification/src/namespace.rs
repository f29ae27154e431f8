//! Namespaces separate the different kinds of directory entries stored in a
//! ZIM archive; each is written as a single ASCII byte.

use vstd::prelude::*;
use crate::errors::Error;

verus! {

/// The closed set of entry namespaces.
#[derive(Debug, Clone, Copy, PartialEq, Eq, Structural)]
pub enum Namespace {
    Layout,
    Articles,
    ArticleMetaData,
    ImagesFile,
    ImagesText,
    Metadata,
    CategoriesText,
    CategoriesArticleList,
    CategoriesArticle,
    FulltextIndex,
}

/// Whether `value` is one of the namespace bytes.
pub open spec fn is_namespace_byte(value: u8) -> bool {
    value == 45 || value == 65 || value == 66 || value == 73 || value == 74 || value == 77
        || value == 85 || value == 86 || value == 87 || value == 88
}

/// The namespace denoted by `value`; meaningful only when
/// `is_namespace_byte(value)` holds.
pub open spec fn spec_namespace_of(value: u8) -> Namespace {
    if value == 45 {
        Namespace::Layout
    } else if value == 65 {
        Namespace::Articles
    } else if value == 66 {
        Namespace::ArticleMetaData
    } else if value == 73 {
        Namespace::ImagesFile
    } else if value == 74 {
        Namespace::ImagesText
    } else if value == 77 {
        Namespace::Metadata
    } else if value == 85 {
        Namespace::CategoriesText
    } else if value == 86 {
        Namespace::CategoriesArticleList
    } else if value == 87 {
        Namespace::CategoriesArticle
    } else {
        Namespace::FulltextIndex
    }
}

/// The ASCII byte that writes the namespace.
pub open spec fn spec_namespace_byte(ns: Namespace) -> u8 {
    match ns {
        Namespace::Layout => 45,
        Namespace::Articles => 65,
        Namespace::ArticleMetaData => 66,
        Namespace::ImagesFile => 73,
        Namespace::ImagesText => 74,
        Namespace::Metadata => 77,
        Namespace::CategoriesText => 85,
        Namespace::CategoriesArticleList => 86,
        Namespace::CategoriesArticle => 87,
        Namespace::FulltextIndex => 88,
    }
}

impl Namespace {
    /// Decodes a namespace byte; bytes outside the closed set are invalid.
    pub fn try_from(value: u8) -> (r: Result<Namespace, Error>)
        ensures
            is_namespace_byte(value) ==> r == Result::<Namespace, Error>::Ok(
                spec_namespace_of(value),
            ),
            !is_namespace_byte(value) ==> r == Result::<Namespace, Error>::Err(
                Error::InvalidNamespace,
            ),
    {
        match value {
            45 => Ok(Namespace::Layout),
            65 => Ok(Namespace::Articles),
            66 => Ok(Namespace::ArticleMetaData),
            73 => Ok(Namespace::ImagesFile),
            74 => Ok(Namespace::ImagesText),
            77 => Ok(Namespace::Metadata),
            85 => Ok(Namespace::CategoriesText),
            86 => Ok(Namespace::CategoriesArticleList),
            87 => Ok(Namespace::CategoriesArticle),
            88 => Ok(Namespace::FulltextIndex),
            _ => Err(Error::InvalidNamespace),
        }
    }

    /// The ASCII byte that writes this namespace.
    pub fn as_byte(&self) -> (r: u8)
        ensures
            r == spec_namespace_byte(*self),
            is_namespace_byte(r),
            spec_namespace_of(r) == *self,
    {
        match self {
            Namespace::Layout => 45,
            Namespace::Articles => 65,
            Namespace::ArticleMetaData => 66,
            Namespace::ImagesFile => 73,
            Namespace::ImagesText => 74,
            Namespace::Metadata => 77,
            Namespace::CategoriesText => 85,
            Namespace::CategoriesArticleList => 86,
            Namespace::CategoriesArticle => 87,
            Namespace::FulltextIndex => 88,
        }
    }
}

} // verus!
