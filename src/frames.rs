use vstd::prelude::*;

verus! {

/// How an MS2 frame was acquired.
#[derive(Debug, Clone, Copy, PartialEq, Eq, Structural)]
pub enum AcquisitionType {
    DDAPASEF,
    DIAPASEF,
}

/// The kind of a frame, read from the raw type code of the frame table.
#[derive(Debug, Clone, Copy, PartialEq, Eq, Structural)]
pub enum FrameType {
    MS1,
    MS2(AcquisitionType),
    Unknown,
}

/// The frame type of a raw code: 0 is MS1, 8 is MS2 acquired with DDA-PASEF,
/// 9 is MS2 acquired with DIA-PASEF, any other code is unknown.
pub open spec fn frame_type_of(code: u8) -> FrameType {
    if code == 0 {
        FrameType::MS1
    } else if code == 8 {
        FrameType::MS2(AcquisitionType::DDAPASEF)
    } else if code == 9 {
        FrameType::MS2(AcquisitionType::DIAPASEF)
    } else {
        FrameType::Unknown
    }
}

/// The ids below `n`, in their order.
pub open spec fn ids_below(ids: Seq<usize>, n: usize) -> Seq<usize> {
    ids.filter(|x: usize| x < n)
}

/// The frame type of a raw code.
pub fn frame_type_from_code(code: u8) -> (r: FrameType)
    ensures
        r == frame_type_of(code),
{
    match code {
        0 => FrameType::MS1,
        8 => FrameType::MS2(AcquisitionType::DDAPASEF),
        9 => FrameType::MS2(AcquisitionType::DIAPASEF),
        _ => FrameType::Unknown,
    }
}

/// The frame type of each raw code, in order.
pub fn frame_types_from_codes(codes: &Vec<u8>) -> (r: Vec<FrameType>)
    ensures
        r@ == codes@.map_values(|c: u8| frame_type_of(c)),
{
    let mut types: Vec<FrameType> = Vec::new();
    let mut i: usize = 0;
    while i < codes.len()
        invariant
            i <= codes@.len(),
            types@ == codes@.take(i as int).map_values(|c: u8| frame_type_of(c)),
        decreases codes@.len() - i,
    {
        let t = frame_type_from_code(codes[i]);
        let ghost prev = types@;
        types.push(t);
        assert(codes@.take(i + 1) =~= codes@.take(i as int).push(codes@[i as int]));
        assert(types@ =~= codes@.take(i + 1).map_values(|c: u8| frame_type_of(c)));
        i += 1;
    }
    assert(codes@.take(codes@.len() as int) =~= codes@);
    types
}

/// Which frames a batch read of one class decodes: at each position below
/// `n`, `Some(position)` where the frame is of the class, `None` where the
/// batch holds the empty frame instead.
pub fn read_plan(frame_types: &Vec<FrameType>, n: usize, ms2: bool) -> (r: Vec<Option<usize>>)
    requires
        n <= frame_types@.len(),
    ensures
        r@.len() == n,
        forall|i: int|
            0 <= i < n ==> #[trigger] r@[i] == (if (if ms2 {
                frame_types@[i] is MS2
            } else {
                frame_types@[i] is MS1
            }) {
                Some(i as usize)
            } else {
                None
            }),
{
    let mut plan: Vec<Option<usize>> = Vec::new();
    let mut i: usize = 0;
    while i < n
        invariant
            i <= n,
            n <= frame_types@.len(),
            plan@.len() == i,
            forall|k: int|
                0 <= k < i ==> #[trigger] plan@[k] == (if (if ms2 {
                    frame_types@[k] is MS2
                } else {
                    frame_types@[k] is MS1
                }) {
                    Some(k as usize)
                } else {
                    None
                }),
        decreases n - i,
    {
        let wanted = match frame_types[i] {
            FrameType::MS1 => !ms2,
            FrameType::MS2(_) => ms2,
            FrameType::Unknown => false,
        };
        if wanted {
            plan.push(Some(i));
        } else {
            plan.push(None);
        }
        i += 1;
    }
    plan
}

/// The frames that the MS1 batch read decodes; see `read_plan`.
pub fn ms1_read_plan(frame_types: &Vec<FrameType>, n: usize) -> (r: Vec<Option<usize>>)
    requires
        n <= frame_types@.len(),
    ensures
        r@.len() == n,
        forall|i: int|
            0 <= i < n ==> #[trigger] r@[i] == (if frame_types@[i] is MS1 {
                Some(i as usize)
            } else {
                None
            }),
{
    read_plan(frame_types, n, false)
}

/// The frames that the MS2 batch read decodes; see `read_plan`.
pub fn ms2_read_plan(frame_types: &Vec<FrameType>, n: usize) -> (r: Vec<Option<usize>>)
    requires
        n <= frame_types@.len(),
    ensures
        r@.len() == n,
        forall|i: int|
            0 <= i < n ==> #[trigger] r@[i] == (if frame_types@[i] is MS2 {
                Some(i as usize)
            } else {
                None
            }),
{
    read_plan(frame_types, n, true)
}

/// The DIA frame ids that name a frame, below `n`, in their order; the
/// others are dropped.
pub fn dia_frame_positions(ids: &Vec<usize>, n: usize) -> (r: Vec<usize>)
    ensures
        r@ == ids_below(ids@, n),
{
    let mut kept: Vec<usize> = Vec::new();
    let mut i: usize = 0;
    while i < ids.len()
        invariant
            i <= ids@.len(),
            kept@ == ids_below(ids@.take(i as int), n),
        decreases ids@.len() - i,
    {
        assert(ids@.take(i + 1).drop_last() =~= ids@.take(i as int));
        proof {
            reveal(Seq::filter);
        }
        if ids[i] < n {
            kept.push(ids[i]);
        }
        i += 1;
    }
    assert(ids@.take(ids@.len() as int) =~= ids@);
    kept
}

/// The DIA batch read keeps the ids below the frame count and only those:
/// every position it reads is a frame, and each id below the count is read.
pub proof fn lemma_dia_positions_in_range(ids: Seq<usize>, n: usize)
    ensures
        forall|i: int| 0 <= i < ids_below(ids, n).len() ==> #[trigger] ids_below(ids, n)[i] < n,
        forall|i: int| 0 <= i < ids.len() && ids[i] < n ==> ids_below(ids, n).contains(#[trigger] ids[i]),
{
    broadcast use vstd::seq_lib::group_filter_ensures;

    assert forall|i: int| 0 <= i < ids.len() && ids[i] < n implies ids_below(ids, n).contains(
        #[trigger] ids[i],
    ) by {
        ids.lemma_filter_contains(|x: usize| x < n, i);
    }
}

} // verus!
