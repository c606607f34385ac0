//! Resource names in the form the managed service expects.
use vstd::prelude::*;
use crate::error::LakeError;
use crate::types::Resource;
use crate::types::ResourceView;

verus! {

/// The service's name for `r` in `region`; tagged resources have none.
pub open spec fn arn_of(r: ResourceView, region: Seq<char>) -> Option<Seq<char>> {
    match r {
        ResourceView::Database { name } => Some(
            "arn:aws:lakeformation:"@ + region + ":*:database/"@ + name,
        ),
        ResourceView::Table { database, table, .. } => Some(
            "arn:aws:lakeformation:"@ + region + ":*:table/"@ + database + "/"@ + table,
        ),
        ResourceView::DataLocation { path } => Some(path),
        ResourceView::TaggedResource { .. } => None,
    }
}

/// The service's name for `resource` in `region`.
pub fn get_resource_arn(resource: &Resource, region: &str) -> (r: Result<String, LakeError>)
    ensures
        match arn_of(resource@, region@) {
            Some(a) => r matches Ok(s) && s@ == a,
            None => r matches Err(LakeError::UnsupportedFeature(_)),
        },
{
    match resource {
        Resource::Database { name } => {
            let s = String::from_str("arn:aws:lakeformation:").concat(region).concat(":*:database/").concat(
                name.as_str(),
            );
            Ok(s)
        },
        Resource::Table { database, table, .. } => {
            let s = String::from_str("arn:aws:lakeformation:").concat(region).concat(":*:table/").concat(
                database.as_str(),
            ).concat("/").concat(table.as_str());
            Ok(s)
        },
        Resource::DataLocation { path } => Ok(path.clone()),
        Resource::TaggedResource { .. } => Err(
            LakeError::UnsupportedFeature(String::from_str("tagged resources have no resource name")),
        ),
    }
}

} // verus!
