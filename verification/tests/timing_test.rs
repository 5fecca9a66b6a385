use vrp_core::common::{Schedule, TimeWindow};
use vrp_core::models::{Activity, Actor, ActorDetail, Place, Route, Tour};
use vrp_core::oracles::{MatrixTransportCost, SimpleActivityCost};
use vrp_core::route_state::RouteContext;
use vrp_core::solution::SolutionContext;
use vrp_core::timing::{
    reschedule_departure, ActivityContext, TimingConstraintModule, LATEST_ARRIVAL_KEY, WAITING_KEY,
};

fn distance_matrix(size: i64) -> Vec<Vec<i64>> {
    (0..size)
        .map(|i| (0..size).map(|j| (i - j).abs()).collect())
        .collect()
}

fn transport() -> MatrixTransportCost {
    MatrixTransportCost::new(distance_matrix(4), distance_matrix(4))
}

fn module() -> TimingConstraintModule<MatrixTransportCost, SimpleActivityCost> {
    TimingConstraintModule::new(SimpleActivityCost::new(), transport(), 1)
}

fn terminal(location: usize) -> Activity {
    Activity {
        place: Place {
            location,
            duration: 0,
            time: TimeWindow::new(0, 100),
        },
        schedule: Schedule::new(0, 0),
        job: None,
    }
}

fn job_activity(id: u64, location: usize, window: (i64, i64)) -> Activity {
    Activity {
        place: Place {
            location,
            duration: 5,
            time: TimeWindow::new(window.0, window.1),
        },
        schedule: Schedule::new(0, 0),
        job: Some(id),
    }
}

fn actor(open_end: bool) -> Actor {
    Actor {
        profile: 0,
        detail: ActorDetail {
            start: Some(0),
            end: if open_end { None } else { Some(0) },
            time: TimeWindow::new(0, 100),
        },
        cost_per_waiting_time: 1,
    }
}

/// One vehicle with shift `[0, 100]` and three jobs at locations `1, 2, 3`
/// with windows `[10,20]`, `[30,40]`, `[50,60]`, service 5, travel one unit
/// per distance.
fn three_jobs_route(open_end: bool) -> RouteContext {
    let mut activities = vec![terminal(0)];
    activities.push(job_activity(1, 1, (10, 20)));
    activities.push(job_activity(2, 2, (30, 40)));
    activities.push(job_activity(3, 3, (50, 60)));
    if !open_end {
        activities.push(terminal(0));
    }
    RouteContext::new(Route {
        actor: actor(open_end),
        tour: Tour { activities },
    })
}

fn latest(ctx: &RouteContext, index: usize) -> i64 {
    ctx.state
        .get_activity_state(LATEST_ARRIVAL_KEY, index)
        .unwrap()
}

fn waiting(ctx: &RouteContext, index: usize) -> i64 {
    ctx.state.get_activity_state(WAITING_KEY, index).unwrap()
}

#[test]
fn can_update_schedule_of_three_job_route() {
    let module = module();
    let mut ctx = three_jobs_route(false);

    module.accept_route_state(&mut ctx);

    let acts = &ctx.route.tour.activities;
    // forward pass: arrival then departure of each activity
    assert_eq!(acts[1].schedule, Schedule::new(1, 15));
    assert_eq!(acts[2].schedule, Schedule::new(16, 35));
    assert_eq!(acts[3].schedule, Schedule::new(36, 55));
    assert_eq!(acts[4].schedule, Schedule::new(58, 58));
    // backward pass: latest arrivals of the job activities
    assert_eq!(latest(&ctx, 1), 20);
    assert_eq!(latest(&ctx, 2), 40);
    assert_eq!(latest(&ctx, 3), 60);
    // backward pass: cumulative waiting from each job to route end;
    // the waiting incurred at the first job itself is 10 - 1 = 9
    assert_eq!(waiting(&ctx, 3), 14);
    assert_eq!(waiting(&ctx, 2), 28);
    assert_eq!(waiting(&ctx, 1), 37);
    assert_eq!(waiting(&ctx, 1) - waiting(&ctx, 2), 9);
    // terminals carry no timing state
    assert_eq!(ctx.state.get_activity_state(LATEST_ARRIVAL_KEY, 0), None);
    assert_eq!(ctx.state.get_activity_state(LATEST_ARRIVAL_KEY, 4), None);
}

#[test]
fn accept_route_state_is_idempotent() {
    let module = module();
    let mut ctx = three_jobs_route(false);

    module.accept_route_state(&mut ctx);
    let first = ctx.clone();
    module.accept_route_state(&mut ctx);

    assert_eq!(ctx.route.tour.activities, first.route.tour.activities);
    for index in 0..5 {
        for key in [LATEST_ARRIVAL_KEY, WAITING_KEY] {
            assert_eq!(
                ctx.state.get_activity_state(key, index),
                first.state.get_activity_state(key, index)
            );
        }
    }
}

#[test]
fn can_reject_insertion_with_tight_window_at_end() {
    let module = module();
    let mut ctx = three_jobs_route(false);
    module.accept_route_state(&mut ctx);

    // a new job with window [0, 5] can no longer be reached in time
    let target = job_activity(4, 1, (0, 5));
    let acts = &ctx.route.tour.activities;
    let activity_ctx = ActivityContext {
        index: 3,
        prev: &acts[3],
        target: &target,
        next: Some(&acts[4]),
    };

    let hard = module.hard_activity_constraint();
    let result = hard.evaluate_activity(&ctx, &activity_ctx);

    let violation = result.expect("the insertion must be rejected");
    assert_eq!(violation.code, 1);
    // only this position fails; the route itself remains usable
    assert!(!violation.stopped);
}

#[test]
fn can_reject_route_whose_shift_ends_before_the_window_opens() {
    let module = module();
    let mut ctx = three_jobs_route(false);
    module.accept_route_state(&mut ctx);

    // the window opens only after the actor's shift has ended, so no
    // position anywhere in the route can succeed
    let target = job_activity(4, 1, (200, 300));
    let acts = &ctx.route.tour.activities;
    let activity_ctx = ActivityContext {
        index: 0,
        prev: &acts[0],
        target: &target,
        next: Some(&acts[1]),
    };

    let hard = module.hard_activity_constraint();
    let result = hard.evaluate_activity(&ctx, &activity_ctx);

    let violation = result.expect("the insertion must be rejected");
    assert!(violation.stopped);
}

#[test]
fn can_accept_insertion_at_end_of_open_route() {
    let module = module();
    let mut ctx = three_jobs_route(true);
    module.accept_route_state(&mut ctx);

    // open tour: no end terminal; a job with window [80, 90] fits at the end
    let target = job_activity(4, 3, (80, 90));
    let acts = &ctx.route.tour.activities;
    let activity_ctx = ActivityContext {
        index: 3,
        prev: &acts[3],
        target: &target,
        next: None,
    };

    let hard = module.hard_activity_constraint();
    let result = hard.evaluate_activity(&ctx, &activity_ctx);

    assert_eq!(result, None);
}

#[test]
fn can_estimate_insertion_into_empty_route() {
    let module = module();
    let mut ctx = RouteContext::new(Route {
        actor: actor(false),
        tour: Tour {
            activities: vec![terminal(0), terminal(0)],
        },
    });
    module.accept_route_state(&mut ctx);

    let target = job_activity(1, 1, (0, 100));
    let acts = &ctx.route.tour.activities;
    let activity_ctx = ActivityContext {
        index: 0,
        prev: &acts[0],
        target: &target,
        next: Some(&acts[1]),
    };

    let soft = module.soft_activity_constraint();
    let cost = soft.estimate_activity(&ctx, &activity_ctx);

    // two new transport legs of distance 1 each, no activity costs
    assert_eq!(cost, 2);
}

#[test]
fn can_reschedule_departure_to_remove_waiting_at_first_job() {
    let module = module();
    let mut ctx = three_jobs_route(false);
    module.accept_route_state(&mut ctx);

    reschedule_departure(
        &MatrixTransportCost::new(distance_matrix(4), distance_matrix(4)),
        &SimpleActivityCost::new(),
        &mut ctx,
    );

    let acts = &ctx.route.tour.activities;
    // the start slides forward by the nine units of waiting at the first job
    assert_eq!(acts[0].schedule.departure, 9);
    assert_eq!(acts[1].schedule, Schedule::new(10, 15));
    // downstream schedules are unchanged
    assert_eq!(acts[2].schedule, Schedule::new(16, 35));
    assert_eq!(acts[3].schedule, Schedule::new(36, 55));
    assert_eq!(waiting(&ctx, 1), 28);
}

#[test]
fn can_accept_solution_state_once_nothing_is_required() {
    let module = module();
    let mut route_ctx = three_jobs_route(false);
    module.accept_route_state(&mut route_ctx);
    let mut solution = SolutionContext::new(vec![route_ctx], vec![]);

    module.accept_solution_state(&mut solution);

    assert_eq!(
        solution.routes[0].route.tour.activities[0].schedule.departure,
        9
    );
}

#[test]
fn accept_solution_state_leaves_required_solutions_alone() {
    let module = module();
    let mut route_ctx = three_jobs_route(false);
    module.accept_route_state(&mut route_ctx);
    let mut solution = SolutionContext::new(vec![route_ctx], vec![42]);

    module.accept_solution_state(&mut solution);

    assert_eq!(
        solution.routes[0].route.tour.activities[0].schedule.departure,
        0
    );
}

#[test]
fn can_register_timing_state_keys() {
    let module = module();
    assert_eq!(module.state_keys().as_slice(), &[1, 2]);
    assert_eq!(module.get_constraints().len(), 2);
}
