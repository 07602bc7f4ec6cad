use stow::error::StowError;
use stow::local::LocalLocation;
use stow::location::Location;
use stow::s3::{
    absorb_page, collect_bucket_names, create_container_result, require_item_body,
    CreateContainerOutcome, S3,
};

#[test]
fn test_local_paths() {
    let local = LocalLocation::new("./data");
    assert_eq!(local.root(), "data");
    assert_eq!(local.container_path("Container-1"), "data/container-1");
    assert_eq!(
        local.item_path("container-1", "Test.TXT"),
        Ok(String::from("data/container-1/test.txt"))
    );
    assert_eq!(
        local.item_path("container-1", "noext"),
        Err(StowError::ItemTypMissing)
    );
}

#[test]
fn test_s3_new_validates_region_eagerly() {
    let s3 = S3::new("EU-CENTRAL-1", "key", "secret").unwrap();
    assert_eq!(s3.region, "eu-central-1");
    assert_eq!(s3.access_key, "key");
    assert_eq!(s3.secret_key, "secret");
    let s3 = S3::new("eucentral1", "key", "secret").unwrap();
    assert_eq!(s3.region, "eu-central-1");
    assert_eq!(
        S3::new("nowhere-7", "key", "secret").err(),
        Some(StowError::InvalidRegion)
    );
}

#[test]
fn test_collect_bucket_names() {
    let buckets = Some(vec![
        Some(String::from("alpha")),
        None,
        Some(String::new()),
        Some(String::from("beta")),
    ]);
    assert_eq!(
        collect_bucket_names(buckets),
        Ok(vec![String::from("alpha"), String::from("beta")])
    );
    assert_eq!(
        collect_bucket_names(None),
        Err(StowError::ListContainerError)
    );
}

#[test]
fn test_absorb_page_accumulates_in_order() {
    let mut items: Vec<String> = Vec::new();
    absorb_page(
        &mut items,
        Some(vec![Some(String::from("a.txt")), None, Some(String::from("b.txt"))]),
    );
    absorb_page(&mut items, Some(vec![Some(String::from("c.txt"))]));
    absorb_page(&mut items, None);
    assert_eq!(
        items,
        vec![
            String::from("a.txt"),
            String::from("b.txt"),
            String::from("c.txt")
        ]
    );
}

#[test]
fn test_create_container_result() {
    assert!(create_container_result(&CreateContainerOutcome::AlreadyOwned).is_ok());
    assert!(create_container_result(&CreateContainerOutcome::Accepted {
        location: Some(String::from("/container-1"))
    })
    .is_ok());
    assert_eq!(
        create_container_result(&CreateContainerOutcome::Accepted { location: None }),
        Err(StowError::ContainerCreationError)
    );
    assert_eq!(
        create_container_result(&CreateContainerOutcome::Rejected),
        Err(StowError::ServiceError)
    );
}

#[test]
fn test_require_item_body() {
    assert!(require_item_body(true).is_ok());
    assert_eq!(require_item_body(false), Err(StowError::EmptyItemError));
}

#[test]
fn test_location_constructors() {
    let loc = Location::new_local("./data");
    assert!(matches!(loc, Location::Local(_)));
    if let Location::Local(l) = &loc {
        assert_eq!(l.root(), "data");
    }

    let loc = Location::new_gcs("my-project", "/tmp/creds.json");
    if let Location::Gcs(g) = &loc {
        assert_eq!(g.project, "my-project");
        assert_eq!(g.credentials_path, "/tmp/creds.json");
    } else {
        panic!("expected the gcs variant");
    }

    let loc = Location::new_s3("eu-central-1", "key", "secret").unwrap();
    assert!(matches!(loc, Location::S3(_)));
    assert!(matches!(
        Location::new_s3("not-a-region", "key", "secret"),
        Err(StowError::InvalidRegion)
    ));
}

#[test]
fn test_location_container_name() {
    let loc = Location::new_local("./data");
    assert_eq!(loc.container_name(" My Container! "), "mycontainer");
    assert_eq!(loc.separator(), '-');
}
