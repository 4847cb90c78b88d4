//! Property propagation for the reshape component, and the expansion of a
//! differentially private covariance into covariance, noise and reshape.

use vstd::prelude::*;

verus! {

/// An n-dimensional array property: the fields that the components read
/// or write, and the remaining fields `rest`, which they hand on unchanged.
#[derive(Debug, Clone, Copy, PartialEq, Eq)]
pub struct ArrayProperties<R> {
    pub releasable: bool,
    pub num_records: Option<i64>,
    pub num_columns: Option<i64>,
    pub dataset_id: Option<i64>,
    pub rest: R,
}

/// The property of one argument of a component.
#[derive(Debug, Clone, Copy, PartialEq, Eq)]
pub enum NodeProperty<R> {
    /// The argument is an n-dimensional array.
    ArrayND(ArrayProperties<R>),
    /// The argument is something else (a hashmap, a jagged array).
    Other,
}

/// The name of an argument of a component.
#[derive(Debug, Clone, Copy, PartialEq, Eq, Structural)]
pub enum Slot {
    Data,
    Left,
    Right,
}

#[derive(Debug, Clone, Copy, PartialEq, Eq, Structural)]
pub enum ComponentError {
    /// "`slot`: missing" (the properties of `left` and `right` report as `data`)
    PropertyMissing(Slot),
    /// "`slot`: " and why the property is not an n-dimensional array (the
    /// properties of `left` and `right` report as `data`)
    PropertyNotArray(Slot),
    /// The number of columns of the argument is not known.
    NumColumnsUnknown(Slot),
    /// The number of records of the argument is not known.
    NumRecordsUnknown(Slot),
    /// "`slot` must be provided as an argument"
    ArgumentMissing(Slot),
    /// "data must be public/releasable to reshape"
    NotReleasable,
    /// "dimensionality may not be greater than 2"
    TooManyDimensions,
    /// "number of records must be greater than zero"
    NoRecords,
    /// "number of columns must be greater than zero"
    NoColumns,
    /// "DPCovariance is abstract, and has no property propagation"
    AbstractComponent,
    /// "get_names not implemented"
    NamesNotImplemented,
}

/// Reshapes the data into an array of the given shape.
pub struct Reshape {
    pub symmetric: bool,
    pub layout: String,
    pub shape: Vec<u32>,
}

/// The number of records an array of this shape has, if the shape has at most two dimensions.
pub open spec fn shape_records(shape: Seq<u32>) -> i64 {
    if shape.len() == 0 {
        1
    } else {
        shape[0] as i64
    }
}

/// The number of columns an array of this shape has, if the shape has at most two dimensions.
pub open spec fn shape_columns(shape: Seq<u32>) -> i64 {
    if shape.len() < 2 {
        1
    } else {
        shape[1] as i64
    }
}

impl Reshape {
    /// The properties of the reshaped data: those of the data, with the
    /// numbers of records and columns of the new shape and no dataset id
    /// (the result counts as a new dataset, so that it is not combined
    /// with arrays it need not conform to); every other field is kept.
    pub fn propagate_property<R>(&self, data: Option<NodeProperty<R>>) -> (r: Result<
        ArrayProperties<R>,
        ComponentError,
    >)
        ensures
            match data {
                None => r == Err::<ArrayProperties<R>, ComponentError>(
                    ComponentError::PropertyMissing(Slot::Data),
                ),
                Some(NodeProperty::Other) => r == Err::<ArrayProperties<R>, ComponentError>(
                    ComponentError::PropertyNotArray(Slot::Data),
                ),
                Some(NodeProperty::ArrayND(p)) => if !p.releasable {
                    r == Err::<ArrayProperties<R>, ComponentError>(ComponentError::NotReleasable)
                } else if self.shape@.len() > 2 {
                    r == Err::<ArrayProperties<R>, ComponentError>(ComponentError::TooManyDimensions)
                } else if shape_records(self.shape@) < 1 {
                    r == Err::<ArrayProperties<R>, ComponentError>(ComponentError::NoRecords)
                } else if shape_columns(self.shape@) < 1 {
                    r == Err::<ArrayProperties<R>, ComponentError>(ComponentError::NoColumns)
                } else {
                    r == Ok::<ArrayProperties<R>, ComponentError>(
                        ArrayProperties {
                            releasable: p.releasable,
                            num_records: Some(shape_records(self.shape@)),
                            num_columns: Some(shape_columns(self.shape@)),
                            dataset_id: None,
                            rest: p.rest,
                        },
                    )
                },
            },
    {
        let mut data_property = match data {
            None => return Err(ComponentError::PropertyMissing(Slot::Data)),
            Some(NodeProperty::Other) => return Err(ComponentError::PropertyNotArray(Slot::Data)),
            Some(NodeProperty::ArrayND(p)) => p,
        };
        if !data_property.releasable {
            return Err(ComponentError::NotReleasable);
        }
        let dims = self.shape.len();
        let num_records: i64 = if dims == 0 {
            1
        } else if dims <= 2 {
            self.shape[0] as i64
        } else {
            return Err(ComponentError::TooManyDimensions);
        };
        let num_columns: i64 = if dims <= 1 {
            1
        } else {
            self.shape[1] as i64
        };
        data_property.num_records = Some(num_records);
        data_property.num_columns = Some(num_columns);
        if num_records < 1 {
            return Err(ComponentError::NoRecords);
        }
        if num_columns < 1 {
            return Err(ComponentError::NoColumns);
        }
        // the result is a new dataset: the number of rows need not be the same any more
        data_property.dataset_id = None;
        Ok(data_property)
    }

    /// Reshape does not name its output columns.
    pub fn get_names(&self) -> (r: Result<Vec<String>, ComponentError>)
        ensures
            r matches Err(ComponentError::NamesNotImplemented),
    {
        Err(ComponentError::NamesNotImplemented)
    }
}

/// A differentially private covariance of the columns of `data`, or cross
/// covariance of the columns of `left` and `right`.
/// `privacy_usage` is what its noise may spend.
pub struct DpCovariance<U> {
    pub finite_sample_correction: bool,
    pub privacy_usage: U,
}

/// What the expansion of a covariance reads of its component: the
/// properties of its arguments and the ids of the nodes its arguments come from.
#[derive(Debug, Clone, Copy, PartialEq, Eq)]
pub struct CovarianceInputs<R> {
    pub data_property: Option<NodeProperty<R>>,
    pub left_property: Option<NodeProperty<R>>,
    pub right_property: Option<NodeProperty<R>>,
    pub data_argument: Option<u32>,
    pub left_argument: Option<u32>,
    pub right_argument: Option<u32>,
}

/// The kind of a component that an expansion adds.
pub enum ExpandedVariant<U> {
    Covariance { finite_sample_correction: bool },
    /// Laplace noise that spends `privacy_usage`.
    LaplaceMechanism { privacy_usage: U },
    Reshape(Reshape),
}

/// A component that an expansion adds: its arguments (name and source
/// node), its kind, whether its value is left out of the release, and its batch.
pub struct ExpandedComponent<U> {
    pub arguments: Vec<(Slot, u32)>,
    pub variant: ExpandedVariant<U>,
    pub omit: bool,
    pub batch: u32,
}

/// The components an expansion puts into the graph, in order (a later one
/// with the same id replaces an earlier one), and the new nodes to traverse.
pub struct ComponentExpansion<U> {
    pub computation_graph: Vec<(u32, ExpandedComponent<U>)>,
    pub traversal: Vec<u32>,
}

/// The statistic that the report of a covariance names.
#[derive(Debug, Clone, Copy, PartialEq, Eq, Structural)]
pub enum CovarianceStatistic {
    /// "DPCovariance" of `data`, over this many records.
    Covariance { num_records: i64 },
    /// "DPCrossCovariance" of `left` and `right`, over the records of `left`.
    CrossCovariance { num_records: i64 },
}

/// The statistic the report names, or the error the report gives: with a
/// `data` property, the covariance of `data`; without one, the cross
/// covariance of `left` and `right`, whose missing or non-array properties
/// report as `data`.
pub open spec fn statistic_plan<R>(inp: CovarianceInputs<R>) -> Result<
    CovarianceStatistic,
    ComponentError,
> {
    match inp.data_property {
        Some(NodeProperty::Other) => Err(ComponentError::PropertyNotArray(Slot::Data)),
        Some(NodeProperty::ArrayND(a)) => match a.num_records {
            None => Err(ComponentError::NumRecordsUnknown(Slot::Data)),
            Some(n) => Ok(CovarianceStatistic::Covariance { num_records: n }),
        },
        None => match inp.left_property {
            None => Err(ComponentError::PropertyMissing(Slot::Data)),
            Some(NodeProperty::Other) => Err(ComponentError::PropertyNotArray(Slot::Data)),
            Some(NodeProperty::ArrayND(l)) => match inp.right_property {
                None => Err(ComponentError::PropertyMissing(Slot::Data)),
                Some(NodeProperty::Other) => Err(ComponentError::PropertyNotArray(Slot::Data)),
                Some(NodeProperty::ArrayND(_)) => match l.num_records {
                    None => Err(ComponentError::NumRecordsUnknown(Slot::Left)),
                    Some(n) => Ok(CovarianceStatistic::CrossCovariance { num_records: n }),
                },
            },
        },
    }
}

pub open spec fn fits_u32(c: i64) -> bool {
    0 <= c <= u32::MAX
}

/// The shape of the covariance matrix, whether it is symmetric, and the
/// arguments of the covariance; or the error the expansion reports. With a
/// `data` property the covariance is of `data` with itself; without one,
/// of `left` with `right`.
pub open spec fn covariance_plan<R>(inp: CovarianceInputs<R>) -> Result<
    (Seq<u32>, bool, Seq<(Slot, u32)>),
    ComponentError,
> {
    match inp.data_property {
        Some(NodeProperty::Other) => Err(ComponentError::PropertyNotArray(Slot::Data)),
        Some(NodeProperty::ArrayND(a)) => match a.num_columns {
            None => Err(ComponentError::NumColumnsUnknown(Slot::Data)),
            Some(c) => match inp.data_argument {
                None => Err(ComponentError::ArgumentMissing(Slot::Data)),
                Some(d) => Ok((seq![c as u32, c as u32], true, seq![(Slot::Data, d)])),
            },
        },
        None => match inp.left_property {
            None => Err(ComponentError::PropertyMissing(Slot::Data)),
            Some(NodeProperty::Other) => Err(ComponentError::PropertyNotArray(Slot::Data)),
            Some(NodeProperty::ArrayND(l)) => match inp.right_property {
                None => Err(ComponentError::PropertyMissing(Slot::Data)),
                Some(NodeProperty::Other) => Err(ComponentError::PropertyNotArray(Slot::Data)),
                Some(NodeProperty::ArrayND(r)) => match l.num_columns {
                    None => Err(ComponentError::NumColumnsUnknown(Slot::Left)),
                    Some(lc) => match r.num_columns {
                        None => Err(ComponentError::NumColumnsUnknown(Slot::Right)),
                        Some(rc) => match inp.left_argument {
                            None => Err(ComponentError::ArgumentMissing(Slot::Left)),
                            Some(la) => match inp.right_argument {
                                None => Err(ComponentError::ArgumentMissing(Slot::Right)),
                                Some(ra) => Ok(
                                    (
                                        seq![lc as u32, rc as u32],
                                        false,
                                        seq![(Slot::Left, la), (Slot::Right, ra)],
                                    ),
                                ),
                            },
                        },
                    },
                },
            },
        },
    }
}

/// A number of columns that the expansion reaches does not fit in `u32`,
/// where converting it would panic.
pub open spec fn covariance_panics<R>(inp: CovarianceInputs<R>) -> bool {
    match inp.data_property {
        Some(NodeProperty::ArrayND(a)) => a.num_columns matches Some(c) && !fits_u32(c),
        Some(NodeProperty::Other) => false,
        None => match (inp.left_property, inp.right_property) {
            (Some(NodeProperty::ArrayND(l)), Some(NodeProperty::ArrayND(r))) => match l.num_columns {
                Some(lc) => !fits_u32(lc) || (r.num_columns matches Some(rc) && !fits_u32(rc)),
                None => false,
            },
            _ => false,
        },
    }
}

/// `x` is the expansion of a covariance with the given shape, symmetry and
/// arguments: a covariance node and a noise node with the next two free
/// ids, both left out of the release, the noise spending a clone of
/// `privacy_usage`, and a reshape of the noisy values, in row layout, that
/// takes the place of the expanded component.
pub open spec fn is_covariance_expansion<U: Clone>(
    x: ComponentExpansion<U>,
    finite_sample_correction: bool,
    privacy_usage: U,
    shape: Seq<u32>,
    symmetric: bool,
    arguments: Seq<(Slot, u32)>,
    component_id: u32,
    maximum_id: u32,
    batch: u32,
) -> bool {
    let cov = (maximum_id + 1) as u32;
    let noise = (maximum_id + 2) as u32;
    let g = x.computation_graph@;
    &&& x.traversal@ == seq![cov, noise]
    &&& g.len() == 3
    &&& g[0].0 == cov
    &&& g[0].1.arguments@ == arguments
    &&& g[0].1.variant matches ExpandedVariant::Covariance { finite_sample_correction: f }
        && f == finite_sample_correction
    &&& g[0].1.omit
    &&& g[0].1.batch == batch
    &&& g[1].0 == noise
    &&& g[1].1.arguments@ == seq![(Slot::Data, cov)]
    &&& g[1].1.variant matches ExpandedVariant::LaplaceMechanism { privacy_usage: u } && cloned(
        privacy_usage,
        u,
    )
    &&& g[1].1.omit
    &&& g[1].1.batch == batch
    &&& g[2].0 == component_id
    &&& g[2].1.arguments@ == seq![(Slot::Data, noise)]
    &&& g[2].1.variant matches ExpandedVariant::Reshape(r) && r.symmetric == symmetric
        && r.layout@ == seq!['r', 'o', 'w'] && r.shape@ == shape
    &&& !g[2].1.omit
    &&& g[2].1.batch == batch
}

/// A covariance of `data` with itself is symmetric; the cross covariance
/// of `left` and `right` never is, whatever their numbers of columns.
pub proof fn lemma_covariance_symmetric_iff_data<R>(inp: CovarianceInputs<R>)
    ensures
        covariance_plan(inp) matches Ok((shape, symmetric, arguments)) ==> symmetric == (
        inp.data_property is Some),
{
}

/// The covariance node of an expansion keeps the component's own finite
/// sample correction, and the reshape keeps the symmetry of the plan,
/// whatever the shape and the arguments.
pub proof fn lemma_expansion_keeps_correction_and_symmetry<U: Clone>(
    x: ComponentExpansion<U>,
    finite_sample_correction: bool,
    privacy_usage: U,
    shape: Seq<u32>,
    symmetric: bool,
    arguments: Seq<(Slot, u32)>,
    component_id: u32,
    maximum_id: u32,
    batch: u32,
)
    requires
        is_covariance_expansion(
            x,
            finite_sample_correction,
            privacy_usage,
            shape,
            symmetric,
            arguments,
            component_id,
            maximum_id,
            batch,
        ),
    ensures
        x.computation_graph@[0].1.variant matches ExpandedVariant::Covariance {
            finite_sample_correction: f,
        } && f == finite_sample_correction,
        x.computation_graph@[2].1.variant matches ExpandedVariant::Reshape(m) && m.symmetric
            == symmetric,
{
}

fn columns_of<R>(property: &ArrayProperties<R>, slot: Slot) -> (r: Result<i64, ComponentError>)
    ensures
        match property.num_columns {
            Some(c) => r == Ok::<i64, ComponentError>(c),
            None => r == Err::<i64, ComponentError>(ComponentError::NumColumnsUnknown(slot)),
        },
{
    match property.num_columns {
        Some(c) => Ok(c),
        None => Err(ComponentError::NumColumnsUnknown(slot)),
    }
}

impl<U: Clone> DpCovariance<U> {
    /// A covariance is expanded before its properties are needed: it has none of its own.
    pub fn propagate_property<R>(&self) -> (r: Result<ArrayProperties<R>, ComponentError>)
        ensures
            r == Err::<ArrayProperties<R>, ComponentError>(ComponentError::AbstractComponent),
    {
        Err(ComponentError::AbstractComponent)
    }

    /// A covariance does not name its output columns.
    pub fn get_names(&self) -> (r: Result<Vec<String>, ComponentError>)
        ensures
            r matches Err(ComponentError::NamesNotImplemented),
    {
        Err(ComponentError::NamesNotImplemented)
    }

    /// The statistic that the report of the covariance names, and the
    /// number of records it reports.
    pub fn summarize_statistic<R>(&self, inputs: &CovarianceInputs<R>) -> (r: Result<
        CovarianceStatistic,
        ComponentError,
    >)
        ensures
            r == statistic_plan(*inputs),
    {
        match &inputs.data_property {
            Some(NodeProperty::Other) => Err(ComponentError::PropertyNotArray(Slot::Data)),
            Some(NodeProperty::ArrayND(data_property)) => match data_property.num_records {
                None => Err(ComponentError::NumRecordsUnknown(Slot::Data)),
                Some(n) => Ok(CovarianceStatistic::Covariance { num_records: n }),
            },
            None => {
                let left_property = match &inputs.left_property {
                    None => return Err(ComponentError::PropertyMissing(Slot::Data)),
                    Some(NodeProperty::Other) => return Err(
                        ComponentError::PropertyNotArray(Slot::Data),
                    ),
                    Some(NodeProperty::ArrayND(p)) => p,
                };
                match &inputs.right_property {
                    None => return Err(ComponentError::PropertyMissing(Slot::Data)),
                    Some(NodeProperty::Other) => return Err(
                        ComponentError::PropertyNotArray(Slot::Data),
                    ),
                    Some(NodeProperty::ArrayND(_)) => {},
                }
                match left_property.num_records {
                    None => Err(ComponentError::NumRecordsUnknown(Slot::Left)),
                    Some(n) => Ok(CovarianceStatistic::CrossCovariance { num_records: n }),
                }
            },
        }
    }

    /// Expands the covariance at `component_id` into a covariance, Laplace
    /// noise on it, and a reshape of the noisy values into a matrix, given
    /// the largest node id in use and the batch of the component.
    pub fn expand_component<R>(
        &self,
        inputs: &CovarianceInputs<R>,
        component_id: u32,
        maximum_id: u32,
        batch: u32,
    ) -> (r: Result<ComponentExpansion<U>, ComponentError>)
        requires
            !covariance_panics(*inputs),
            covariance_plan(*inputs) is Ok ==> maximum_id <= u32::MAX - 2,
        ensures
            match covariance_plan(*inputs) {
                Err(e) => r matches Err(e2) && e2 == e,
                Ok((shape, symmetric, arguments)) => r matches Ok(x) && is_covariance_expansion(
                    x,
                    self.finite_sample_correction,
                    self.privacy_usage,
                    shape,
                    symmetric,
                    arguments,
                    component_id,
                    maximum_id,
                    batch,
                ),
            },
            r matches Ok(x) ==> x.computation_graph@.len() == 3,
            r matches Ok(x) ==> x.computation_graph@[0].1.variant matches ExpandedVariant::Covariance {
                finite_sample_correction: f,
            } && f == self.finite_sample_correction,
            r matches Ok(x) ==> x.computation_graph@[2].1.variant matches ExpandedVariant::Reshape(m)
                && m.symmetric == (inputs.data_property is Some),
    {
        proof {
            lemma_covariance_symmetric_iff_data(*inputs);
        }
        let mut current_id = maximum_id;
        let arguments: Vec<(Slot, u32)>;
        let shape: Vec<u32>;
        let symmetric: bool;
        match &inputs.data_property {
            Some(data_property) => {
                let data_property = match data_property {
                    NodeProperty::ArrayND(p) => p,
                    NodeProperty::Other => return Err(
                        ComponentError::PropertyNotArray(Slot::Data),
                    ),
                };
                let num_columns = match columns_of(data_property, Slot::Data) {
                    Ok(c) => c,
                    Err(e) => return Err(e),
                };
                shape = vec![num_columns as u32, num_columns as u32];
                let data = match inputs.data_argument {
                    Some(d) => d,
                    None => return Err(ComponentError::ArgumentMissing(Slot::Data)),
                };
                arguments = vec![(Slot::Data, data)];
                symmetric = true;
            },
            None => {
                let left_property = match &inputs.left_property {
                    None => return Err(ComponentError::PropertyMissing(Slot::Data)),
                    Some(NodeProperty::Other) => return Err(
                        ComponentError::PropertyNotArray(Slot::Data),
                    ),
                    Some(NodeProperty::ArrayND(p)) => p,
                };
                let right_property = match &inputs.right_property {
                    None => return Err(ComponentError::PropertyMissing(Slot::Data)),
                    Some(NodeProperty::Other) => return Err(
                        ComponentError::PropertyNotArray(Slot::Data),
                    ),
                    Some(NodeProperty::ArrayND(p)) => p,
                };
                let left_columns = match columns_of(left_property, Slot::Left) {
                    Ok(c) => c,
                    Err(e) => return Err(e),
                };
                let right_columns = match columns_of(right_property, Slot::Right) {
                    Ok(c) => c,
                    Err(e) => return Err(e),
                };
                shape = vec![left_columns as u32, right_columns as u32];
                let left = match inputs.left_argument {
                    Some(a) => a,
                    None => return Err(ComponentError::ArgumentMissing(Slot::Left)),
                };
                let right = match inputs.right_argument {
                    Some(a) => a,
                    None => return Err(ComponentError::ArgumentMissing(Slot::Right)),
                };
                arguments = vec![(Slot::Left, left), (Slot::Right, right)];
                symmetric = false;
            },
        }
        // covariance
        current_id = current_id + 1;
        let id_covariance = current_id;
        let covariance = ExpandedComponent {
            arguments,
            variant: ExpandedVariant::Covariance {
                finite_sample_correction: self.finite_sample_correction,
            },
            omit: true,
            batch,
        };
        // noise
        current_id = current_id + 1;
        let id_noise = current_id;
        let privacy_usage = self.privacy_usage.clone();
        let noise = ExpandedComponent {
            arguments: vec![(Slot::Data, id_covariance)],
            variant: ExpandedVariant::LaplaceMechanism { privacy_usage },
            omit: true,
            batch,
        };
        // reshape into a matrix
        let mut layout = String::new();
        proof {
            reveal_strlit("row");
        }
        layout.append("row");
        let reshape = ExpandedComponent {
            arguments: vec![(Slot::Data, id_noise)],
            variant: ExpandedVariant::Reshape(Reshape { symmetric, layout, shape }),
            omit: false,
            batch,
        };
        let computation_graph = vec![
            (id_covariance, covariance),
            (id_noise, noise),
            (component_id, reshape),
        ];
        let traversal = vec![id_covariance, id_noise];
        let x = ComponentExpansion { computation_graph, traversal };
        proof {
            let plan = covariance_plan(*inputs);
            assert(plan is Ok);
            let (pshape, psym, pargs) = plan->Ok_0;
            assert(x.traversal@ =~= seq![id_covariance, id_noise]);
            assert(x.computation_graph@.len() == 3);
            assert(x.computation_graph@[0].1.arguments@ =~= pargs);
            assert(x.computation_graph@[1].1.arguments@ =~= seq![(Slot::Data, id_covariance)]);
            assert(x.computation_graph@[2].1.arguments@ =~= seq![(Slot::Data, id_noise)]);
            assert(pshape =~= shape@);
            assert(psym == symmetric);
            let g = x.computation_graph@;
            assert(g[2].1.variant matches ExpandedVariant::Reshape(r) && r.layout@ == seq!['r', 'o', 'w']);
            assert(g[2].1.variant matches ExpandedVariant::Reshape(r) && r.shape@ == pshape && r.symmetric == psym);
            assert(g[0].1.variant matches ExpandedVariant::Covariance { finite_sample_correction: f }
        && f == self.finite_sample_correction);
            assert(id_covariance == (maximum_id + 1) as u32);
            assert(id_noise == (maximum_id + 2) as u32);
        }
        Ok(x)
    }
}

} // verus!
