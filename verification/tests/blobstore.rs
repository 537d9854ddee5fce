use abkve::{Storage, VectorDocument};

fn doc_vector(values: &[f64]) -> Vec<u64> {
    values.iter().map(|x| x.to_bits()).collect()
}

#[test]
fn test_working() {
    assert_eq!(Storage::working(), "Hello, world! from package storage");
}

#[test]
fn test_new() {
    let storage = Storage::new("./demo.db");
    assert_eq!(storage.path, "./demo.db");
    assert_eq!(storage.data.len(), 0);
}

#[test]
fn test_store_and_retrieve_vector() {
    let mut storage = Storage::new("./demo.db");
    let document = VectorDocument {
        key: "document1".to_string(),
        vector: doc_vector(&[1.0, 2.0, 3.0]),
        metadata: None,
    };

    storage.store_vector(document.clone());

    let retrieved_document = storage.retrieve_vector("document1");

    assert_eq!(retrieved_document, Some(&document));
}

#[test]
fn test_update_vector() {
    let mut storage = Storage::new("./demo.db");
    let document = VectorDocument {
        key: "document1".to_string(),
        vector: doc_vector(&[1.0, 2.0, 3.0]),
        metadata: None,
    };

    storage.store_vector(document.clone());

    let updated_document = VectorDocument {
        key: "document1".to_string(),
        vector: doc_vector(&[1.0, 2.0, 3.0]),
        metadata: None,
    };

    storage.update_vector(updated_document.clone());

    let retrieved_document = storage.retrieve_vector("document1");

    assert_eq!(retrieved_document, Some(&updated_document));
}

#[test]
fn test_delete_document() {
    let mut storage = Storage::new("./demo.db");
    let document = VectorDocument {
        key: "document1".to_string(),
        vector: doc_vector(&[1.0, 2.0, 3.0]),
        metadata: None,
    };

    storage.store_vector(document.clone());

    storage.delete_document("document1");

    let retrieved_document = storage.retrieve_vector("document1");

    assert_eq!(retrieved_document, None);
}

#[test]
fn test_list_documents() {
    let mut storage = Storage::new("./demo.db");
    let document1 = VectorDocument {
        key: "document1".to_string(),
        vector: doc_vector(&[1.0, 2.0, 3.0]),
        metadata: None,
    };
    let document2 = VectorDocument {
        key: "document2".to_string(),
        vector: doc_vector(&[1.0, 2.0, 3.0]),
        metadata: None,
    };

    storage.store_vector(document1.clone());
    storage.store_vector(document2.clone());

    let documents = storage.list_documents();

    assert_eq!(documents.len(), 2);
    assert_eq!(documents.contains(&&document1), true);
    assert_eq!(documents.contains(&&document2), true);
}

#[test]
fn test_search_documents() {
    let mut storage = Storage::new("./demo.db");
    let document1 = VectorDocument {
        key: "document1".to_string(),
        vector: doc_vector(&[1.0, 2.0, 3.0]),
        metadata: None,
    };
    let document2 = VectorDocument {
        key: "document2".to_string(),
        vector: doc_vector(&[1.0, 2.0, 3.0]),
        metadata: None,
    };
    let document3 = VectorDocument {
        key: "another_document".to_string(),
        vector: doc_vector(&[1.0, 2.0, 3.0]),
        metadata: None,
    };

    storage.store_vector(document1.clone());
    storage.store_vector(document2.clone());

    let search_results = storage.search_documents("document");

    assert_eq!(search_results.len(), 2);
    assert_eq!(search_results.contains(&&document1), true);
    assert_eq!(search_results.contains(&&document2), true);
    assert_eq!(search_results.contains(&&document3), false);
}

#[test]
fn test_store_replaces_same_key() {
    let mut storage = Storage::new("./demo.db");
    let first = VectorDocument {
        key: "document1".to_string(),
        vector: doc_vector(&[1.0, 2.0, 3.0]),
        metadata: None,
    };
    let second = VectorDocument {
        key: "document1".to_string(),
        vector: doc_vector(&[4.0, 5.0, 6.0]),
        metadata: None,
    };
    storage.store_vector(first);
    storage.store_vector(second.clone());
    assert_eq!(storage.data.len(), 1);
    assert_eq!(storage.retrieve_vector("document1"), Some(&second));
}

#[test]
fn test_search_documents_substring_middle() {
    let mut storage = Storage::new("./demo.db");
    let doc = VectorDocument {
        key: "another_document".to_string(),
        vector: doc_vector(&[1.0]),
        metadata: None,
    };
    storage.store_vector(doc.clone());
    assert_eq!(storage.search_documents("her_doc").len(), 1);
    assert_eq!(storage.search_documents("missing").len(), 0);
    // The empty query matches every key.
    assert_eq!(storage.search_documents("").len(), 1);
}
