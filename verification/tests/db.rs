use agdb::db::db_conditions::{
    edge_condition, evaluate_conditions, ids_condition, node_condition, ConditionVerdict,
    QueryConditionLogic, QueryConditionModifier,
};
use agdb::db::db_config::{DbConfig, StorageMode};
use agdb::db::db_conditions::QueryConditionLogic::{And, Or};
use agdb::db::db_conditions::QueryConditionModifier::{Beyond, Not, NotBeyond, Unmodified};
use agdb::graph::GraphIndex;
use agdb::db::db_error::{DbError, DbErrorCategory, DbErrorType};
use agdb::db::db_index::DbIndexStorageIndex;
use agdb::db::db_search_handlers::{LimitHandler, LimitOffsetHandler, OffsetHandler, PathHandler};
use agdb::db::db_value_index::DbValueIndex;
use agdb::collections::multi_map::MultiMapImpl;
use agdb::db::legacy::{convert_to_current_version, DbStorageIndexLegacy};
use agdb::db::{open_action, DbStorageIndex, OpenAction, CURRENT_VERSION};
use agdb::graph_search::SearchControl;
use agdb::storage::StorageIndex;

#[test]
fn db_storage_index_serialized_size() {
    assert_eq!(DbStorageIndex::default().serialized_size(), 48);
}

#[test]
fn db_storage_index_legacy_serialization() {
    let index = DbStorageIndexLegacy {
        graph: StorageIndex(1),
        aliases: (StorageIndex(2), StorageIndex(3)),
        indexes: StorageIndex(4),
        values: StorageIndex(5),
    };
    let serialized = index.serialize();
    let deserialized = DbStorageIndexLegacy::deserialize(&serialized).unwrap();
    assert_eq!(index.graph, deserialized.graph);
    assert_eq!(index.aliases.0, deserialized.aliases.0);
    assert_eq!(index.aliases.1, deserialized.aliases.1);
    assert_eq!(index.indexes, deserialized.indexes);
    assert_eq!(index.values, deserialized.values);
    assert_eq!(index.serialized_size(), deserialized.serialized_size());
}

#[test]
fn db_index_derived_from_clone() {
    let left = DbIndexStorageIndex {
        key_index: DbValueIndex::new(),
        ids_index: StorageIndex::from(1),
    };
    #[allow(clippy::clone_on_copy)]
    let other = left.clone();
    assert_eq!(left.key_index, other.key_index);
    assert_eq!(left.ids_index, other.ids_index);
}

#[test]
fn db_storage_index_round_trip() {
    let index = DbStorageIndex {
        version: CURRENT_VERSION,
        graph: StorageIndex(10),
        aliases: (StorageIndex(20), StorageIndex(30)),
        indexes: StorageIndex(40),
        values: StorageIndex(u64::MAX),
    };
    let bytes = index.serialize();
    assert_eq!(bytes.len(), 48);
    let other = DbStorageIndex::deserialize(&bytes).unwrap();
    assert_eq!(other.version, 1);
    assert_eq!(other.graph, StorageIndex(10));
    assert_eq!(other.aliases, (StorageIndex(20), StorageIndex(30)));
    assert_eq!(other.indexes, StorageIndex(40));
    assert_eq!(other.values, StorageIndex(u64::MAX));
    assert!(DbStorageIndex::deserialize(&bytes[0..47]).is_err());
}

#[test]
fn legacy_deserialize_short_input() {
    let error = DbStorageIndexLegacy::deserialize(&[0_u8; 39]).err().unwrap();
    assert_eq!(error.description, "u64 deserialization error: out of bounds");
}

#[test]
fn convert_legacy_root_record() {
    let legacy = DbStorageIndexLegacy {
        graph: StorageIndex(1),
        aliases: (StorageIndex(2), StorageIndex(3)),
        indexes: StorageIndex(4),
        values: StorageIndex(5),
    };
    let bytes = legacy.serialize();
    let mut legacy_values = MultiMapImpl::new();
    legacy_values.insert(7, 70);
    legacy_values.insert(7, 71);
    legacy_values.insert(8, 80);
    let migration =
        convert_to_current_version(Some(&bytes), legacy_values, StorageIndex(9)).unwrap();
    let current = migration.root;
    assert_eq!(current.version, CURRENT_VERSION);
    assert_eq!(current.graph, StorageIndex(1));
    assert_eq!(current.aliases, (StorageIndex(2), StorageIndex(3)));
    assert_eq!(current.indexes, StorageIndex(4));
    assert_eq!(current.values, StorageIndex(9));
    let written = DbStorageIndex::deserialize(&migration.root_bytes).unwrap();
    assert_eq!(written.version, CURRENT_VERSION);
    assert_eq!(written.values, StorageIndex(9));
    assert_eq!(written.graph, StorageIndex(1));
    let mut moved = migration.values.iter();
    moved.sort();
    assert_eq!(moved, vec![(7, 70), (7, 71), (8, 80)]);
}

#[test]
fn convert_legacy_without_root_record() {
    let error = convert_to_current_version(None, MultiMapImpl::new(), StorageIndex(9))
        .err()
        .unwrap();
    assert_eq!(error.description, "FileStorage error: index (1) not found");
    let short = convert_to_current_version(Some(&[1_u8; 39]), MultiMapImpl::new(), StorageIndex(9));
    assert!(short.is_err());
}

#[test]
fn db_index_storage_index_round_trip() {
    let mut key_index = DbValueIndex::new();
    assert!(key_index.set_value(&[4_u8, 2]));
    let index = DbIndexStorageIndex {
        key_index,
        ids_index: StorageIndex(77),
    };
    let bytes = index.store();
    assert_eq!(bytes.len() as u64, DbIndexStorageIndex::storage_len());
    let other = DbIndexStorageIndex::load(&bytes).unwrap();
    assert_eq!(other.key_index, key_index);
    assert_eq!(other.ids_index, StorageIndex(77));
    assert!(DbIndexStorageIndex::load(&bytes[0..23]).is_err());
}

#[test]
fn db_error_derived_from_debug() {
    let error = DbError::db(DbErrorType::NotEnoughData, "error");
    let _ = format!("{error:?}");
}

#[test]
fn from_string_has_no_kind() {
    let error = DbError::db(DbErrorType::NotEnoughData, "error");

    assert_eq!(error.ty, DbErrorType::NotEnoughData);
}

#[test]
fn caused_by() {
    let error = DbError::db(DbErrorType::NotEnoughData, "file not found");
    let new_error = DbError::db(DbErrorType::NotEnoughData, "open error").caused_by(error);
    assert_eq!(
        new_error.cause,
        Some(Box::new(DbError::db(
            DbErrorType::NotEnoughData,
            "file not found"
        )))
    );
}

#[test]
fn source_none() {
    let error = DbError::db(DbErrorType::NotEnoughData, "file not found");

    assert!(error.source().is_none());
}

#[test]
fn db_error_source_is_cause() {
    let error = DbError::db(DbErrorType::NotEnoughData, "open error");
    let new_error = DbError::db(DbErrorType::NotEnoughData, "file not found").caused_by(error);
    let source = new_error.source().unwrap();
    assert_eq!(source.description, "open error");
    assert!(source.source().is_none());
}

#[test]
fn db_error_equality_ignores_category() {
    let a = DbError::db(DbErrorType::NotFound, "missing");
    let b = DbError::storage(DbErrorType::NotFound, "missing");
    assert_eq!(a, b);
    assert_ne!(a, DbError::db(DbErrorType::NotAllowed, "missing"));
    assert_ne!(a, DbError::db(DbErrorType::NotFound, "other"));
    let with_cause = DbError::db(DbErrorType::NotFound, "missing")
        .caused_by(DbError::db(DbErrorType::TypeError, "inner"));
    assert_ne!(a, with_cause);
    let same_cause = DbError::storage(DbErrorType::NotFound, "missing")
        .caused_by(DbError::graph(DbErrorType::TypeError, "inner"));
    assert_eq!(with_cause, same_cause);
}

#[test]
fn db_error_constructors() {
    assert_eq!(
        DbError::collections(DbErrorType::NotFound, "a").category,
        DbErrorCategory::Collections
    );
    assert_eq!(
        DbError::graph(DbErrorType::NotFound, "a").category,
        DbErrorCategory::Graph
    );
    assert_eq!(
        DbError::query(DbErrorType::NotFound, "a").category,
        DbErrorCategory::Query
    );
    assert_eq!(
        DbError::storage(DbErrorType::NotFound, "a").category,
        DbErrorCategory::Storage
    );
    let e = DbError::serialization(DbErrorType::OutOfBounds, "b");
    assert_eq!(e.category, DbErrorCategory::Serialization);
    assert_eq!(e.description, "b");
    assert_eq!(DbErrorType::OutOfBounds.name(), "OutOfBounds");
    assert_eq!(DbErrorCategory::Db.name(), "Db");
}

#[test]
fn db_config_holds_mode() {
    let config = DbConfig {
        storage_mode: StorageMode::Memory,
    };
    assert_eq!(config.storage_mode, StorageMode::Memory);
}

#[test]
fn limit_handler_finishes_at_limit() {
    let mut handler = LimitHandler::new(2);
    assert_eq!(
        handler.process(SearchControl::Continue(true)),
        SearchControl::Continue(true)
    );
    assert_eq!(
        handler.process(SearchControl::Continue(false)),
        SearchControl::Continue(false)
    );
    assert_eq!(
        handler.process(SearchControl::Stop(true)),
        SearchControl::Finish(true)
    );
}

#[test]
fn offset_handler_skips_first() {
    let mut handler = OffsetHandler::new(1);
    assert_eq!(
        handler.process(SearchControl::Continue(true)),
        SearchControl::Continue(false)
    );
    assert_eq!(
        handler.process(SearchControl::Stop(true)),
        SearchControl::Stop(true)
    );
    assert_eq!(
        handler.process(SearchControl::Continue(false)),
        SearchControl::Continue(false)
    );
}

#[test]
fn limit_offset_handler() {
    let mut handler = LimitOffsetHandler::new(1, 1);
    assert_eq!(
        handler.process(SearchControl::Continue(true)),
        SearchControl::Continue(false)
    );
    assert_eq!(
        handler.process(SearchControl::Continue(true)),
        SearchControl::Finish(true)
    );
}

#[test]
fn path_handler_costs() {
    let handler = PathHandler::new();
    assert_eq!(handler.process(SearchControl::Continue(true)), (1, true));
    assert_eq!(handler.process(SearchControl::Continue(false)), (2, false));
    assert_eq!(handler.process(SearchControl::Stop(true)), (0, true));
    assert_eq!(handler.process(SearchControl::Finish(false)), (0, false));
}

#[test]
fn open_action_by_root_record() {
    assert!(matches!(open_action(None), Ok(OpenAction::Create)));
    let current = DbStorageIndex {
        version: CURRENT_VERSION,
        graph: StorageIndex(2),
        aliases: (StorageIndex(3), StorageIndex(4)),
        indexes: StorageIndex(5),
        values: StorageIndex(6),
    };
    match open_action(Some(&current.serialize())) {
        Ok(OpenAction::Load(index)) => assert_eq!(index.values, StorageIndex(6)),
        _ => panic!("expected the current record to load"),
    }
    let legacy = DbStorageIndexLegacy {
        graph: StorageIndex(1),
        aliases: (StorageIndex(2), StorageIndex(3)),
        indexes: StorageIndex(4),
        values: StorageIndex(5),
    };
    match open_action(Some(&legacy.serialize())) {
        Ok(OpenAction::Convert(index)) => assert_eq!(index.values, StorageIndex(5)),
        _ => panic!("expected the legacy record to convert"),
    }
    assert!(open_action(Some(&[0_u8; 12])).is_err());
}

fn verdict(
    logic: QueryConditionLogic,
    modifier: QueryConditionModifier,
    control: SearchControl,
) -> ConditionVerdict {
    ConditionVerdict {
        logic,
        modifier,
        control,
    }
}

#[test]
fn evaluate_conditions_joins_in_order() {
    assert_eq!(evaluate_conditions(&[]), SearchControl::Continue(true));
    assert_eq!(
        evaluate_conditions(&[verdict(And, Not, SearchControl::Continue(true))]),
        SearchControl::Continue(false)
    );
    assert_eq!(
        evaluate_conditions(&[verdict(And, Beyond, SearchControl::Continue(false))]),
        SearchControl::Stop(true)
    );
    assert_eq!(
        evaluate_conditions(&[verdict(And, Beyond, SearchControl::Continue(true))]),
        SearchControl::Continue(true)
    );
    assert_eq!(
        evaluate_conditions(&[verdict(And, NotBeyond, SearchControl::Continue(true))]),
        SearchControl::Stop(true)
    );
    assert_eq!(
        evaluate_conditions(&[verdict(And, NotBeyond, SearchControl::Continue(false))]),
        SearchControl::Continue(true)
    );
    assert_eq!(
        evaluate_conditions(&[
            verdict(And, Unmodified, SearchControl::Continue(false)),
            verdict(Or, Unmodified, SearchControl::Finish(true)),
        ]),
        SearchControl::Continue(true)
    );
    assert_eq!(
        evaluate_conditions(&[
            verdict(And, Unmodified, SearchControl::Stop(true)),
            verdict(And, Not, SearchControl::Finish(false)),
        ]),
        SearchControl::Finish(true)
    );
}

#[test]
fn element_conditions() {
    assert_eq!(edge_condition(GraphIndex(-2)), SearchControl::Continue(true));
    assert_eq!(edge_condition(GraphIndex(2)), SearchControl::Continue(false));
    assert_eq!(node_condition(GraphIndex(2)), SearchControl::Continue(true));
    assert_eq!(ids_condition(GraphIndex(3), &[1, 3]), SearchControl::Continue(true));
    assert_eq!(ids_condition(GraphIndex(3), &[-3]), SearchControl::Continue(false));
    assert_eq!(ids_condition(GraphIndex(3), &[]), SearchControl::Continue(false));
}

#[test]
fn db_error_text_names_category_type_and_cause() {
    let mut error = DbError::db(DbErrorType::NotEnoughData, "outer error");
    assert_eq!(error.to_text(), "[Db:NotEnoughData] outer error");
    error.cause = Some(Box::new(DbError::db(
        DbErrorType::NotEnoughData,
        "inner error",
    )));
    assert_eq!(
        error.to_text(),
        "[Db:NotEnoughData] outer error\ncaused by\n  [Db:NotEnoughData] inner error"
    );
    assert_eq!(
        DbError::storage(DbErrorType::NotFound, "gone").to_text(),
        "[Storage:NotFound] gone"
    );
}
