use sorla_providers::fdb_provider::{metric_event_key, FoundationDbProvider};
use sorla_providers::metric_rules::{
    bucket_timestamp, day_of_year, ensure_metric_field, validate_filter_shape, validate_metric_query,
    MetricAggregationShape, MetricFilterShape, MetricQueryShape, MetricTimeBucketShape,
    ProviderMetricAggregateFunction, ProviderMetricFilterOperator, ProviderMetricTimeGrain,
};
use sorla_providers::traits::{CanonicalEntityStoreProvider, ProviderMetadataSource};
use sorla_providers::types::{CanonicalEntityRecord, ProviderCapability, ProviderError, SorNamespace};

fn bucket(ts: &str, grain: ProviderMetricTimeGrain) -> Result<String, ProviderError> {
    bucket_timestamp(Some(ts), grain).map(|bytes| String::from_utf8(bytes).unwrap())
}

#[test]
fn time_buckets_cover_every_grain() {
    let ts = "2026-05-01T09:30:00Z";
    assert_eq!(bucket(ts, ProviderMetricTimeGrain::Hour).unwrap(), "2026-05-01T09:00:00Z");
    assert_eq!(bucket(ts, ProviderMetricTimeGrain::Day).unwrap(), "2026-05-01");
    assert_eq!(bucket(ts, ProviderMetricTimeGrain::Week).unwrap(), "2026-W18");
    assert_eq!(bucket(ts, ProviderMetricTimeGrain::Month).unwrap(), "2026-05");
    assert_eq!(bucket(ts, ProviderMetricTimeGrain::Quarter).unwrap(), "2026-Q2");
    assert_eq!(bucket(ts, ProviderMetricTimeGrain::Year).unwrap(), "2026");
    assert_eq!(bucket("2026-01-03", ProviderMetricTimeGrain::Week).unwrap(), "2026-W01");
}

#[test]
fn time_buckets_refuse_unreadable_timestamps() {
    assert_eq!(
        bucket_timestamp(None, ProviderMetricTimeGrain::Day),
        Err(ProviderError::InvalidMetricFilter("time bucket field must be a string timestamp".into()))
    );
    assert_eq!(
        bucket("2026-5-1", ProviderMetricTimeGrain::Day),
        Err(ProviderError::InvalidMetricFilter("invalid timestamp 2026-5-1".into()))
    );
    assert_eq!(
        bucket("2026-05-01", ProviderMetricTimeGrain::Hour),
        Err(ProviderError::InvalidMetricFilter("invalid timestamp 2026-05-01".into()))
    );
    assert_eq!(
        bucket("2026-13-01", ProviderMetricTimeGrain::Week),
        Err(ProviderError::InvalidMetricFilter("invalid timestamp month 13".into()))
    );
    assert_eq!(
        bucket("2026-02-30", ProviderMetricTimeGrain::Week),
        Err(ProviderError::InvalidMetricFilter("invalid timestamp day 30".into()))
    );
    assert_eq!(bucket("2026-+5-01", ProviderMetricTimeGrain::Quarter).unwrap(), "2026-Q2");
    assert!(bucket("é026-05-01", ProviderMetricTimeGrain::Year).is_err());
}

#[test]
fn day_of_year_counts_a_common_year() {
    assert_eq!(day_of_year(1, 1), Ok(1));
    assert_eq!(day_of_year(3, 1), Ok(60));
    assert_eq!(day_of_year(12, 31), Ok(365));
    assert_eq!(day_of_year(0, 1), Err(ProviderError::InvalidMetricFilter("invalid timestamp month 0".into())));
    assert_eq!(day_of_year(4, 31), Err(ProviderError::InvalidMetricFilter("invalid timestamp day 31".into())));
}

fn rows() -> Vec<Vec<String>> {
    vec![vec!["amount".into(), "kind".into()], vec!["occurred_at".into()]]
}

#[test]
fn metric_queries_are_checked_before_they_run() {
    let provider = FoundationDbProvider::for_tests();
    let caps = provider.metadata().capabilities;
    let good = MetricQueryShape {
        aggregations: vec![MetricAggregationShape {
            function: ProviderMetricAggregateFunction::Sum,
            field: Some("amount".into()),
        }],
        filters: vec![MetricFilterShape {
            field: "kind".into(),
            operator: ProviderMetricFilterOperator::Equals,
            has_value: true,
            has_values: false,
        }],
        dimensions: vec!["kind".into()],
        time_bucket: Some(MetricTimeBucketShape { field: "occurred_at".into(), grain: ProviderMetricTimeGrain::Day }),
    };
    assert_eq!(validate_metric_query(&caps, &rows(), &good), Ok(()));

    let empty = MetricQueryShape { aggregations: vec![], filters: vec![], dimensions: vec![], time_bucket: None };
    assert_eq!(
        validate_metric_query(&caps, &rows(), &empty),
        Err(ProviderError::InvalidMetricFilter("at least one aggregation is required".into()))
    );

    let unknown = MetricQueryShape {
        aggregations: vec![MetricAggregationShape { function: ProviderMetricAggregateFunction::Count, field: None }],
        filters: vec![],
        dimensions: vec!["missing".into()],
        time_bucket: None,
    };
    assert_eq!(
        validate_metric_query(&caps, &rows(), &unknown),
        Err(ProviderError::UnknownMetricField("missing".into()))
    );

    let no_caps = validate_metric_query(&vec![ProviderCapability::MetricAggregateCount], &rows(), &good);
    assert_eq!(no_caps, Err(ProviderError::UnsupportedMetricCapability("MetricAggregateSum".into())));
}

#[test]
fn filter_shapes_need_their_values() {
    let needs_values = MetricFilterShape {
        field: "kind".into(),
        operator: ProviderMetricFilterOperator::In,
        has_value: true,
        has_values: false,
    };
    assert_eq!(
        validate_filter_shape(&needs_values),
        Err(ProviderError::InvalidMetricFilter("kind requires values".into()))
    );
    let needs_value = MetricFilterShape {
        field: "amount".into(),
        operator: ProviderMetricFilterOperator::Gt,
        has_value: false,
        has_values: true,
    };
    assert_eq!(
        validate_filter_shape(&needs_value),
        Err(ProviderError::InvalidMetricFilter("amount requires value".into()))
    );
    let exists = MetricFilterShape {
        field: "amount".into(),
        operator: ProviderMetricFilterOperator::Exists,
        has_value: false,
        has_values: false,
    };
    assert_eq!(validate_filter_shape(&exists), Ok(()));
    assert_eq!(ensure_metric_field(&rows(), "occurred_at"), Ok(()));
    assert_eq!(ensure_metric_field(&vec![], "x"), Err(ProviderError::UnknownMetricField("x".into())));
}

fn record(namespace: &SorNamespace, entity_type: &str, id: &str, revision: u64) -> CanonicalEntityRecord {
    CanonicalEntityRecord {
        namespace: namespace.clone(),
        entity_type: entity_type.into(),
        entity_id: id.into(),
        canonical_version: "v1".into(),
        revision,
        data_json: "{}".into(),
        created_at: "2026-05-01T00:00:00Z".into(),
        updated_at: "2026-05-01T00:00:00Z".into(),
    }
}

#[test]
fn metric_sources_list_canonical_entities_in_key_order() {
    let ns = SorNamespace { tenant_id: "tenant-a".into(), sor_id: "commerce".into(), environment_id: None };
    let other = SorNamespace { environment_id: Some("dev".into()), ..ns.clone() };
    let mut provider = FoundationDbProvider::for_tests();
    provider.upsert_canonical_entity(record(&ns, "Order", "order-2", 3)).unwrap();
    provider.upsert_canonical_entity(record(&ns, "Order", "order-1", 1)).unwrap();
    provider.upsert_canonical_entity(record(&ns, "Customer", "c-1", 1)).unwrap();
    provider.upsert_canonical_entity(record(&other, "Order", "order-0", 1)).unwrap();

    let rows = provider.metric_source_entities(&ns, "Order");
    let ids: Vec<&str> = rows.iter().map(|(_, r)| r.entity_id.as_str()).collect();
    assert_eq!(ids, vec!["order-1", "order-2"]);
    assert_eq!(rows[0].0, "canonical:tenant-a\u{1f}commerce:Order:order-1:00000000000000000001");
    assert_eq!(metric_event_key("clicks", 7), "event:clicks:00000000000000000007");
}
