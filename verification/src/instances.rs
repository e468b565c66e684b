use vstd::prelude::*;

verus! {

/// What to do with an instance buffer before drawing a frame.
#[derive(PartialEq, Eq, Structural)]
pub enum InstanceUpdate {
    /// There is nothing to draw; leave the buffer alone.
    Skip,
    /// The buffer holds the wrong number of instances: make a new one for
    /// this many.
    Recreate(u32),
    /// The buffer has the right size: write the new instances into it.
    Overwrite,
}

/// The update for `instance_count` instances and a buffer that holds
/// `buffer_instances`.
pub open spec fn instance_update_spec(instance_count: int, buffer_instances: int) -> InstanceUpdate {
    if instance_count == 0 {
        InstanceUpdate::Skip
    } else if instance_count != buffer_instances {
        InstanceUpdate::Recreate(instance_count as u32)
    } else {
        InstanceUpdate::Overwrite
    }
}

/// The number of instances the buffer holds after `update`.
pub open spec fn instances_after(update: InstanceUpdate, buffer_instances: u32) -> u32 {
    match update {
        InstanceUpdate::Recreate(count) => count,
        _ => buffer_instances,
    }
}

/// Decides how to bring an instance buffer that holds `buffer_instances`
/// instances up to date with `instance_count` instances. A count that does
/// not fit a `u32` cannot be recorded and is refused.
pub fn instance_update(instance_count: usize, buffer_instances: u32) -> (update: InstanceUpdate)
    requires
        instance_count > 0 && instance_count != buffer_instances ==> instance_count <= u32::MAX,
    ensures
        update == instance_update_spec(instance_count as int, buffer_instances as int),
        (update == InstanceUpdate::Skip) <==> instance_count == 0,
        update matches InstanceUpdate::Recreate(count) ==> count == instance_count
            && instance_count != buffer_instances,
        update == InstanceUpdate::Overwrite ==> instance_count == buffer_instances
            && instance_count > 0,
{
    if instance_count == 0 {
        InstanceUpdate::Skip
    } else if instance_count != buffer_instances as usize {
        InstanceUpdate::Recreate(instance_count as u32)
    } else {
        InstanceUpdate::Overwrite
    }
}

/// After an update for a non-zero number of instances the buffer holds
/// exactly that many, so that the next update for the same number only
/// overwrites it.
pub proof fn lemma_instance_buffer_tracks_count(instance_count: int, buffer_instances: u32)
    requires
        0 < instance_count <= u32::MAX,
    ensures
        instances_after(instance_update_spec(instance_count, buffer_instances as int), buffer_instances)
            == instance_count,
        instance_update_spec(
            instance_count,
            instances_after(
                instance_update_spec(instance_count, buffer_instances as int),
                buffer_instances,
            ) as int,
        ) == InstanceUpdate::Overwrite,
{
}

/// With no instances the buffer is left alone, whatever it holds; a buffer
/// is recreated only for a new, non-zero count, and for exactly that count;
/// it is overwritten only when it already holds the count.
pub proof fn lemma_instance_update_cases(instance_count: int, buffer_instances: int)
    requires
        0 <= instance_count <= u32::MAX,
    ensures
        (instance_update_spec(instance_count, buffer_instances) == InstanceUpdate::Skip)
            <==> instance_count == 0,
        instance_update_spec(instance_count, buffer_instances) matches InstanceUpdate::Recreate(
            count,
        ) ==> count == instance_count && instance_count != buffer_instances,
        (instance_update_spec(instance_count, buffer_instances) == InstanceUpdate::Overwrite)
            <==> (instance_count == buffer_instances && instance_count > 0),
{
}

} // verus!
