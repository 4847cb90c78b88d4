use whitenoise_runtime::components::{
    ArrayProperties, ComponentError, CovarianceInputs, CovarianceStatistic, DpCovariance,
    ExpandedVariant, NodeProperty, Reshape, Slot,
};

fn array(releasable: bool, num_columns: Option<i64>) -> ArrayProperties<&'static str> {
    ArrayProperties { releasable, num_records: Some(10), num_columns, dataset_id: Some(4), rest: "nature" }
}

fn reshape(shape: Vec<u32>) -> Reshape {
    Reshape { symmetric: false, layout: "row".to_string(), shape }
}

#[test]
fn reshape_to_a_matrix() {
    let p = reshape(vec![3, 2]).propagate_property(Some(NodeProperty::ArrayND(array(true, Some(6)))));
    assert_eq!(
        p,
        Ok(ArrayProperties {
            releasable: true,
            num_records: Some(3),
            num_columns: Some(2),
            dataset_id: None,
            rest: "nature"
        })
    );
}

#[test]
fn reshape_to_a_vector_and_a_scalar() {
    let data = Some(NodeProperty::ArrayND(array(true, Some(6))));
    let p = reshape(vec![6]).propagate_property(data).unwrap();
    assert_eq!((p.num_records, p.num_columns, p.dataset_id), (Some(6), Some(1), None));
    let p = reshape(vec![]).propagate_property(data).unwrap();
    assert_eq!((p.num_records, p.num_columns), (Some(1), Some(1)));
}

#[test]
fn reshape_errors() {
    let data = Some(NodeProperty::ArrayND(array(true, Some(6))));
    assert_eq!(reshape(vec![1]).propagate_property::<()>(None), Err(ComponentError::PropertyMissing(Slot::Data)));
    assert_eq!(
        reshape(vec![1]).propagate_property::<()>(Some(NodeProperty::Other)),
        Err(ComponentError::PropertyNotArray(Slot::Data))
    );
    assert_eq!(
        reshape(vec![1]).propagate_property(Some(NodeProperty::ArrayND(array(false, Some(6))))),
        Err(ComponentError::NotReleasable)
    );
    assert_eq!(reshape(vec![1, 2, 3]).propagate_property(data), Err(ComponentError::TooManyDimensions));
    assert_eq!(reshape(vec![0, 2]).propagate_property(data), Err(ComponentError::NoRecords));
    assert_eq!(reshape(vec![2, 0]).propagate_property(data), Err(ComponentError::NoColumns));
    assert_eq!(reshape(vec![2]).get_names(), Err(ComponentError::NamesNotImplemented));
}

fn no_inputs() -> CovarianceInputs<&'static str> {
    CovarianceInputs {
        data_property: None,
        left_property: None,
        right_property: None,
        data_argument: None,
        left_argument: None,
        right_argument: None,
    }
}

#[test]
fn covariance_of_data_expands_into_three_components() {
    let inputs = CovarianceInputs {
        data_property: Some(NodeProperty::ArrayND(array(false, Some(3)))),
        data_argument: Some(4),
        ..no_inputs()
    };
    let x = DpCovariance { finite_sample_correction: true, privacy_usage: vec![0.5f64] }.expand_component(&inputs, 9, 20, 2).unwrap();
    assert_eq!(x.traversal, vec![21, 22]);
    assert_eq!(x.computation_graph.len(), 3);
    let (id, cov) = &x.computation_graph[0];
    assert_eq!(*id, 21);
    assert_eq!(cov.arguments, vec![(Slot::Data, 4)]);
    assert!(matches!(cov.variant, ExpandedVariant::Covariance { finite_sample_correction: true }));
    assert!(cov.omit);
    assert_eq!(cov.batch, 2);
    let (id, noise) = &x.computation_graph[1];
    assert_eq!(*id, 22);
    assert_eq!(noise.arguments, vec![(Slot::Data, 21)]);
    match &noise.variant {
        ExpandedVariant::LaplaceMechanism { privacy_usage } => assert_eq!(privacy_usage, &vec![0.5]),
        _ => panic!("expected Laplace noise"),
    }
    assert!(noise.omit);
    let (id, matrix) = &x.computation_graph[2];
    assert_eq!(*id, 9);
    assert_eq!(matrix.arguments, vec![(Slot::Data, 22)]);
    assert!(!matrix.omit);
    match &matrix.variant {
        ExpandedVariant::Reshape(r) => {
            assert!(r.symmetric);
            assert_eq!(r.layout, "row");
            assert_eq!(r.shape, vec![3, 3]);
        }
        _ => panic!("expected a reshape"),
    }
}

#[test]
fn cross_covariance_expands_with_left_and_right() {
    let inputs = CovarianceInputs {
        left_property: Some(NodeProperty::ArrayND(array(false, Some(2)))),
        right_property: Some(NodeProperty::ArrayND(array(false, Some(5)))),
        left_argument: Some(1),
        right_argument: Some(2),
        ..no_inputs()
    };
    let x = DpCovariance { finite_sample_correction: false, privacy_usage: vec![1.0f64, 0.25] }.expand_component(&inputs, 3, 3, 0).unwrap();
    assert_eq!(x.traversal, vec![4, 5]);
    assert_eq!(x.computation_graph[0].1.arguments, vec![(Slot::Left, 1), (Slot::Right, 2)]);
    match &x.computation_graph[2].1.variant {
        ExpandedVariant::Reshape(r) => {
            assert!(!r.symmetric);
            assert_eq!(r.shape, vec![2, 5]);
        }
        _ => panic!("expected a reshape"),
    }
}

#[test]
fn covariance_expansion_errors() {
    let c = DpCovariance { finite_sample_correction: false, privacy_usage: vec![1.0f64, 0.25] };
    let err = |inputs: CovarianceInputs<&'static str>| c.expand_component(&inputs, 1, 1, 0).err().unwrap();
    // the properties of left and right report as data
    assert_eq!(err(no_inputs()), ComponentError::PropertyMissing(Slot::Data));
    assert_eq!(
        err(CovarianceInputs { data_property: Some(NodeProperty::Other), ..no_inputs() }),
        ComponentError::PropertyNotArray(Slot::Data)
    );
    assert_eq!(
        err(CovarianceInputs { data_property: Some(NodeProperty::ArrayND(array(true, None))), ..no_inputs() }),
        ComponentError::NumColumnsUnknown(Slot::Data)
    );
    assert_eq!(
        err(CovarianceInputs { data_property: Some(NodeProperty::ArrayND(array(true, Some(2)))), ..no_inputs() }),
        ComponentError::ArgumentMissing(Slot::Data)
    );
    let left = Some(NodeProperty::ArrayND(array(true, Some(2))));
    assert_eq!(
        err(CovarianceInputs { left_property: Some(NodeProperty::Other), ..no_inputs() }),
        ComponentError::PropertyNotArray(Slot::Data)
    );
    assert_eq!(err(CovarianceInputs { left_property: left, ..no_inputs() }), ComponentError::PropertyMissing(Slot::Data));
    assert_eq!(
        err(CovarianceInputs { left_property: left, right_property: Some(NodeProperty::Other), ..no_inputs() }),
        ComponentError::PropertyNotArray(Slot::Data)
    );
    assert_eq!(
        err(CovarianceInputs {
            left_property: Some(NodeProperty::ArrayND(array(true, None))),
            right_property: left,
            ..no_inputs()
        }),
        ComponentError::NumColumnsUnknown(Slot::Left)
    );
    assert_eq!(
        err(CovarianceInputs {
            left_property: left,
            right_property: Some(NodeProperty::ArrayND(array(true, None))),
            ..no_inputs()
        }),
        ComponentError::NumColumnsUnknown(Slot::Right)
    );
    assert_eq!(
        err(CovarianceInputs { left_property: left, right_property: left, right_argument: Some(3), ..no_inputs() }),
        ComponentError::ArgumentMissing(Slot::Left)
    );
    assert_eq!(
        err(CovarianceInputs { left_property: left, right_property: left, left_argument: Some(3), ..no_inputs() }),
        ComponentError::ArgumentMissing(Slot::Right)
    );
}

#[test]
fn covariance_has_no_properties_or_names() {
    let c = DpCovariance { finite_sample_correction: false, privacy_usage: vec![1.0f64, 0.25] };
    assert_eq!(c.propagate_property::<()>(), Err(ComponentError::AbstractComponent));
    assert_eq!(c.get_names(), Err(ComponentError::NamesNotImplemented));
}

#[test]
fn covariance_report_names_its_statistic() {
    let c = DpCovariance { finite_sample_correction: false, privacy_usage: () };
    let data = CovarianceInputs { data_property: Some(NodeProperty::ArrayND(array(true, Some(2)))), ..no_inputs() };
    assert_eq!(c.summarize_statistic(&data), Ok(CovarianceStatistic::Covariance { num_records: 10 }));
    let mut left = array(true, Some(2));
    left.num_records = Some(7);
    let cross = CovarianceInputs {
        left_property: Some(NodeProperty::ArrayND(left)),
        right_property: Some(NodeProperty::ArrayND(array(true, Some(3)))),
        ..no_inputs()
    };
    assert_eq!(c.summarize_statistic(&cross), Ok(CovarianceStatistic::CrossCovariance { num_records: 7 }));
}

#[test]
fn covariance_report_errors() {
    let c = DpCovariance { finite_sample_correction: false, privacy_usage: () };
    assert_eq!(c.summarize_statistic(&no_inputs()), Err(ComponentError::PropertyMissing(Slot::Data)));
    let left = Some(NodeProperty::ArrayND(array(true, Some(2))));
    assert_eq!(
        c.summarize_statistic(&CovarianceInputs { left_property: left, ..no_inputs() }),
        Err(ComponentError::PropertyMissing(Slot::Data))
    );
    assert_eq!(
        c.summarize_statistic(&CovarianceInputs { data_property: Some(NodeProperty::Other), ..no_inputs() }),
        Err(ComponentError::PropertyNotArray(Slot::Data))
    );
    let mut unknown = array(true, Some(2));
    unknown.num_records = None;
    assert_eq!(
        c.summarize_statistic(&CovarianceInputs { data_property: Some(NodeProperty::ArrayND(unknown)), ..no_inputs() }),
        Err(ComponentError::NumRecordsUnknown(Slot::Data))
    );
    assert_eq!(
        c.summarize_statistic(&CovarianceInputs {
            left_property: Some(NodeProperty::ArrayND(unknown)),
            right_property: left,
            ..no_inputs()
        }),
        Err(ComponentError::NumRecordsUnknown(Slot::Left))
    );
}
